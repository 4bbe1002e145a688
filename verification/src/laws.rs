//! Laws of the execution core, proved once and for all against the
//! transition specification: arithmetic-flag semantics, clear-screen
//! behaviour, call/return pairing, stack fault conditions, quirk
//! selection, and the bulk-transfer index rule.

use crate::decode::{op_nnn, op_x, op_y, spec_decode, Instr};
use crate::display::{cell_index, plane_off};
use crate::error::CoreErrorType;
use crate::model::{
    add8, carry8, msb_bit8, noborrow8, plane_selected, shl8, sub8, word_at, wrap16, CoreView,
};
use crate::transition::{
    bulk_index_after, draw8, draw_layer, draw_planes_spec, draw_row8, exec_draw,
    lemma_put_pixel_frame, put_pixel, screen_cleared, spec_step, step_ok, store_regs_mem,
    xor_cell_v,
};
use vstd::prelude::*;

verus! {

/// The flat cell index that pixel `j` of an 8-wide high-resolution sprite
/// row anchored at `(col, row)` lands on.
pub open spec fn hit_cell(col: u8, row: u8, j: int) -> int {
    cell_index((row as int) % 64, ((col as int) % 128 + j) % 128)
}

/// Whether pixel `j` of the row byte `b` is drawn: its sprite bit is set
/// and it is not clipped at the right display edge.
pub open spec fn pixel_on(clip: bool, col: u8, b: u8, j: int) -> bool {
    msb_bit8(b, j) && !(clip && (col as int) % 128 + j >= 128)
}

/// Whether some drawn pixel `j` in `k..8` of the row lands on cell `i`.
pub open spec fn row_covers(clip: bool, col: u8, row: u8, b: u8, k: int, i: int) -> bool {
    exists|j: int| k <= j < 8 && pixel_on(clip, col, b, j) && hit_cell(col, row, j) == i
}

/// Whether some drawn pixel `j` in `k..8` of the row lands on a cell that
/// is already set in `plane`.
pub open spec fn row_collides(
    clip: bool,
    plane: Seq<bool>,
    col: u8,
    row: u8,
    b: u8,
    k: int,
) -> bool {
    exists|j: int| k <= j < 8 && pixel_on(clip, col, b, j) && plane[hit_cell(col, row, j)]
}

/// Distinct pixels of one row land on distinct, in-range cells.
proof fn lemma_hit_cells(col: u8, row: u8, j: int, k: int)
    requires
        0 <= j < 8,
        0 <= k < 8,
    ensures
        0 <= hit_cell(col, row, j) < 8192,
        j != k ==> hit_cell(col, row, j) != hit_cell(col, row, k),
{
    let c0 = (col as int) % 128;
    let r0 = (row as int) % 64;
    assert(0 <= c0 < 128);
    assert(0 <= r0 < 64);
    let pj = (c0 + j) % 128;
    let pk = (c0 + k) % 128;
    assert(pj == if c0 + j < 128 { c0 + j } else { c0 + j - 128 });
    assert(pk == if c0 + k < 128 { c0 + k } else { c0 + k - 128 });
    assert(0 <= r0 * 128 + pj < 8192);
}

/// Closed form of one high-resolution 8-wide row draw: each cell of the
/// drawn plane is XOR-ed with whether a drawn pixel lands on it, the other
/// plane is untouched, and the flag register is set to 1 exactly when a
/// drawn pixel lands on an already-set cell.
proof fn lemma_row8_closed(s: CoreView, layer: int, col: u8, row: u8, b: u8, k: int)
    requires
        s.wf(),
        0 <= layer < 2,
        s.hires_mode,
        0 <= k <= 8,
    ensures
        ({
            let s2 = draw_row8(s, layer, col, row, 0, b, k);
            let clip = s.quirks.clipping;
            &&& s2 == (CoreView { screen: s2.screen, v: s2.v, ..s })
            &&& s2.screen.len() == 2
            &&& forall|l: int| 0 <= l < 2 && l != layer ==> #[trigger] s2.screen[l] == s.screen[l]
            &&& s2.screen[layer].len() == 8192
            &&& forall|i: int|
                0 <= i < 8192 ==> #[trigger] s2.screen[layer][i] == (s.screen[layer][i]
                    != row_covers(clip, col, row, b, k, i))
            &&& s2.v == (if row_collides(clip, s.screen[layer], col, row, b, k) {
                s.v.update(15, 1)
            } else {
                s.v
            })
        }),
    decreases 8 - k,
{
    reveal(draw_row8);
    let clip = s.quirks.clipping;
    let s2 = draw_row8(s, layer, col, row, 0, b, k);
    if k == 8 {
        assert forall|i: int| 0 <= i < 8192 implies #[trigger] s2.screen[layer][i] == (
        s.screen[layer][i] != row_covers(clip, col, row, b, k, i)) by {
            assert(!row_covers(clip, col, row, b, 8, i));
        }
        assert(!row_collides(clip, s.screen[layer], col, row, b, 8));
    } else {
        let bit = msb_bit8(b, k);
        let sp = put_pixel(s, layer, col, row, 0, k, bit);
        lemma_put_pixel_frame(s, layer, col, row, 0, k, bit);
        assert(sp.wf());
        // Characterize the single pixel.
        let c0 = (col as int) % 128;
        let r0 = (row as int) % 64;
        let hc = hit_cell(col, row, k);
        reveal(put_pixel);
        lemma_hit_cells(col, row, k, k);
        assert(sp.screen[layer].len() == 8192);
        if clip && c0 + k >= 128 {
            assert(sp == s);
            assert(!pixel_on(clip, col, b, k));
        } else {
            assert(sp == xor_cell_v(s, layer, r0, (c0 + k) % 128, bit));
        }
        // The pixel only touches cell hc of the drawn plane.
        assert(forall|i: int|
            0 <= i < 8192 && i != hc ==> #[trigger] sp.screen[layer][i] == s.screen[layer][i]);
        assert(sp.screen[layer][hc] == (s.screen[layer][hc] != (pixel_on(clip, col, b, k))));
        assert(forall|l: int| 0 <= l < 2 && l != layer ==> #[trigger] sp.screen[l] == s.screen[l]);
        assert(sp.v == (if pixel_on(clip, col, b, k) && s.screen[layer][hc] {
            s.v.update(15, 1)
        } else {
            s.v
        }));
        lemma_row8_closed(sp, layer, col, row, b, k + 1);
        assert(s2 == draw_row8(sp, layer, col, row, 0, b, k + 1));
        // Cells hit by the later pixels are untouched by this one.
        assert forall|j: int| k + 1 <= j < 8 implies #[trigger] sp.screen[layer][hit_cell(
            col,
            row,
            j,
        )] == s.screen[layer][hit_cell(col, row, j)] by {
            lemma_hit_cells(col, row, j, k);
        }
        assert(row_collides(clip, sp.screen[layer], col, row, b, k + 1) == row_collides(
            clip,
            s.screen[layer],
            col,
            row,
            b,
            k + 1,
        )) by {
            if row_collides(clip, sp.screen[layer], col, row, b, k + 1) {
                let j = choose|j: int|
                    k + 1 <= j < 8 && pixel_on(clip, col, b, j) && sp.screen[layer][hit_cell(
                        col,
                        row,
                        j,
                    )];
                lemma_hit_cells(col, row, j, k);
                assert(k + 1 <= j < 8 && pixel_on(clip, col, b, j) && s.screen[layer][hit_cell(
                    col,
                    row,
                    j,
                )]);
            }
            if row_collides(clip, s.screen[layer], col, row, b, k + 1) {
                let j = choose|j: int|
                    k + 1 <= j < 8 && pixel_on(clip, col, b, j) && s.screen[layer][hit_cell(
                        col,
                        row,
                        j,
                    )];
                lemma_hit_cells(col, row, j, k);
                assert(k + 1 <= j < 8 && pixel_on(clip, col, b, j) && sp.screen[layer][hit_cell(
                    col,
                    row,
                    j,
                )]);
            }
        }
        // Cell-wise composition.
        assert forall|i: int| 0 <= i < 8192 implies #[trigger] s2.screen[layer][i] == (
        s.screen[layer][i] != row_covers(clip, col, row, b, k, i)) by {
            if i == hc && pixel_on(clip, col, b, k) {
                assert(row_covers(clip, col, row, b, k, i));
                assert(!row_covers(clip, col, row, b, k + 1, i)) by {
                    if row_covers(clip, col, row, b, k + 1, i) {
                        let j = choose|j: int|
                            k + 1 <= j < 8 && pixel_on(clip, col, b, j) && hit_cell(col, row, j)
                                == i;
                        lemma_hit_cells(col, row, j, k);
                    }
                }
            } else {
                assert(sp.screen[layer][i] == (s.screen[layer][i] != (i == hc && pixel_on(
                    clip,
                    col,
                    b,
                    k,
                ))));
                assert(row_covers(clip, col, row, b, k, i) == row_covers(
                    clip,
                    col,
                    row,
                    b,
                    k + 1,
                    i,
                )) by {
                    if row_covers(clip, col, row, b, k, i) {
                        let j = choose|j: int|
                            k <= j < 8 && pixel_on(clip, col, b, j) && hit_cell(col, row, j) == i;
                        if j == k {
                            assert(i == hc && pixel_on(clip, col, b, k));
                        }
                        assert(k + 1 <= j < 8 && pixel_on(clip, col, b, j) && hit_cell(col, row, j)
                            == i);
                    }
                }
            }
        }
        // Collision composition.
        assert(row_collides(clip, s.screen[layer], col, row, b, k) == (
        (pixel_on(clip, col, b, k) && s.screen[layer][hc]) || row_collides(
            clip,
            s.screen[layer],
            col,
            row,
            b,
            k + 1,
        ))) by {
            if row_collides(clip, s.screen[layer], col, row, b, k) {
                let j = choose|j: int|
                    k <= j < 8 && pixel_on(clip, col, b, j) && s.screen[layer][hit_cell(
                        col,
                        row,
                        j,
                    )];
                if j != k {
                    assert(k + 1 <= j < 8 && pixel_on(clip, col, b, j) && s.screen[layer][hit_cell(
                        col,
                        row,
                        j,
                    )]);
                }
            }
            if pixel_on(clip, col, b, k) && s.screen[layer][hc] {
                assert(k <= k < 8 && pixel_on(clip, col, b, k) && s.screen[layer][hit_cell(
                    col,
                    row,
                    k,
                )]);
            }
            if row_collides(clip, s.screen[layer], col, row, b, k + 1) {
                let j = choose|j: int|
                    k + 1 <= j < 8 && pixel_on(clip, col, b, j) && s.screen[layer][hit_cell(
                        col,
                        row,
                        j,
                    )];
                assert(k <= j < 8 && pixel_on(clip, col, b, j) && s.screen[layer][hit_cell(
                    col,
                    row,
                    j,
                )]);
            }
        }
        // Flag register composition.
        assert(s.v.update(15, 1).update(15, 1) =~= s.v.update(15, 1));
    }
}

/// The flat cell index of corner `q` (0..4, row-minor) of the 2x2 block
/// that pixel `j` of a low-resolution 8-wide sprite row anchored at
/// `(col, row)` lands on.
pub open spec fn lo_cell(col: u8, row: u8, j: int, q: int) -> int {
    let px = (col as int) % 64 + j;
    let py = (row as int) % 32;
    let dx: int = if q % 2 == 1 {
        1
    } else {
        0
    };
    let dy: int = if q >= 2 {
        1
    } else {
        0
    };
    cell_index((2 * py + dy) % 64, (2 * px + dx) % 128)
}

/// Whether pixel `j` of a low-resolution row is drawn: its sprite bit is
/// set and it is not clipped at the right edge of the logical grid.
pub open spec fn lo_pixel_on(clip: bool, col: u8, b: u8, j: int) -> bool {
    msb_bit8(b, j) && !(clip && (col as int) % 64 + j >= 64)
}

/// Whether some corner of some drawn pixel `j` in `k..8` lands on cell
/// `i`.
pub open spec fn lo_covers(clip: bool, col: u8, row: u8, b: u8, k: int, i: int) -> bool {
    exists|j: int, q: int|
        k <= j < 8 && 0 <= q < 4 && lo_pixel_on(clip, col, b, j) && lo_cell(col, row, j, q) == i
}

/// Whether some corner of some drawn pixel `j` in `k..8` lands on a cell
/// already set in `plane`.
pub open spec fn lo_collides(
    clip: bool,
    plane: Seq<bool>,
    col: u8,
    row: u8,
    b: u8,
    k: int,
) -> bool {
    exists|j: int, q: int|
        k <= j < 8 && 0 <= q < 4 && lo_pixel_on(clip, col, b, j) && plane[lo_cell(col, row, j, q)]
}

/// The canonical value of a block corner cell, and its bounds.
proof fn lemma_lo_cell_value(col: u8, row: u8, j: int, q: int)
    requires
        0 <= j < 8,
        0 <= q < 4,
    ensures
        lo_cell(col, row, j, q) == (2 * ((row as int) % 32) + (if q >= 2 {
            1int
        } else {
            0
        })) * 128 + 2 * (((col as int) % 64 + j) % 64) + (if q % 2 == 1 {
            1int
        } else {
            0
        }),
        0 <= lo_cell(col, row, j, q) < 8192,
{
    let px = (col as int) % 64 + j;
    let py = (row as int) % 32;
    let dx: int = if q % 2 == 1 {
        1
    } else {
        0
    };
    let dy: int = if q >= 2 {
        1
    } else {
        0
    };
    assert(0 <= py < 32);
    assert((2 * py + dy) % 64 == 2 * py + dy);
    assert(0 <= px < 71);
    let m = px % 64;
    assert(m == if px < 64 { px } else { px - 64 });
    assert((2 * px + dx) % 128 == 2 * m + dx);
}

/// Distinct pixel/corner pairs of one low-resolution row land on
/// distinct, in-range cells.
proof fn lemma_lo_cells(col: u8, row: u8, j: int, q: int, j2: int, q2: int)
    requires
        0 <= j < 8,
        0 <= q < 4,
        0 <= j2 < 8,
        0 <= q2 < 4,
    ensures
        0 <= lo_cell(col, row, j, q) < 8192,
        j != j2 || q != q2 ==> lo_cell(col, row, j, q) != lo_cell(col, row, j2, q2),
{
    lemma_lo_cell_value(col, row, j, q);
    lemma_lo_cell_value(col, row, j2, q2);
    let c0 = (col as int) % 64;
    let m = (c0 + j) % 64;
    let m2 = (c0 + j2) % 64;
    assert(m == if c0 + j < 64 { c0 + j } else { c0 + j - 64 });
    assert(m2 == if c0 + j2 < 64 { c0 + j2 } else { c0 + j2 - 64 });
    assert(j != j2 ==> m != m2);
}

/// Closed form of one low-resolution pixel: its 2x2 block of cells is
/// XOR-ed with the bit, nothing else changes, and the flag register is
/// set to 1 exactly when the bit lands on an already-set corner.
#[verifier::rlimit(100)]
#[verifier::spinoff_prover]
proof fn lemma_lo_block_closed(s: CoreView, layer: int, col: u8, row: u8, k: int, bit: bool)
    requires
        s.wf(),
        0 <= layer < 2,
        !s.hires_mode,
        0 <= k < 8,
        !(s.quirks.clipping && (col as int) % 64 + k >= 64),
    ensures
        ({
            let sp = put_pixel(s, layer, col, row, 0, k, bit);
            &&& sp == (CoreView { screen: sp.screen, v: sp.v, ..s })
            &&& sp.screen.len() == 2
            &&& forall|l: int| 0 <= l < 2 && l != layer ==> #[trigger] sp.screen[l] == s.screen[l]
            &&& sp.screen[layer].len() == 8192
            &&& forall|i: int|
                0 <= i < 8192 ==> #[trigger] sp.screen[layer][i] == (s.screen[layer][i] != (bit
                    && exists|q: int| 0 <= q < 4 && lo_cell(col, row, k, q) == i))
            &&& sp.v == (if bit && (exists|q: int|
                0 <= q < 4 && s.screen[layer][lo_cell(col, row, k, q)]) {
                s.v.update(15, 1)
            } else {
                s.v
            })
        }),
{
    reveal(put_pixel);
    let sp = put_pixel(s, layer, col, row, 0, k, bit);
    let px = (col as int) % 64 + k;
    let py = (row as int) % 32;
    let c0 = lo_cell(col, row, k, 0);
    let c1 = lo_cell(col, row, k, 1);
    let c2 = lo_cell(col, row, k, 2);
    let c3 = lo_cell(col, row, k, 3);
    lemma_lo_cells(col, row, k, 0, k, 1);
    lemma_lo_cells(col, row, k, 0, k, 2);
    lemma_lo_cells(col, row, k, 0, k, 3);
    lemma_lo_cells(col, row, k, 1, k, 2);
    lemma_lo_cells(col, row, k, 1, k, 3);
    lemma_lo_cells(col, row, k, 2, k, 3);
    let s1 = xor_cell_v(s, layer, (2 * py) % 64, (2 * px) % 128, bit);
    let s2 = xor_cell_v(s1, layer, (2 * py) % 64, (2 * px + 1) % 128, bit);
    let s3 = xor_cell_v(s2, layer, (2 * py + 1) % 64, (2 * px) % 128, bit);
    assert(sp == xor_cell_v(s3, layer, (2 * py + 1) % 64, (2 * px + 1) % 128, bit));
    assert(cell_index((2 * py) % 64, (2 * px) % 128) == c0);
    assert(cell_index((2 * py) % 64, (2 * px + 1) % 128) == c1);
    assert(cell_index((2 * py + 1) % 64, (2 * px) % 128) == c2);
    assert(cell_index((2 * py + 1) % 64, (2 * px + 1) % 128) == c3);
    assert forall|i: int| 0 <= i < 8192 implies #[trigger] sp.screen[layer][i] == (
    s.screen[layer][i] != (bit && exists|q: int| 0 <= q < 4 && lo_cell(col, row, k, q) == i)) by {
        if i == c0 || i == c1 || i == c2 || i == c3 {
            if i == c0 {
                assert(lo_cell(col, row, k, 0) == i && 0 <= 0 < 4);
            } else if i == c1 {
                assert(lo_cell(col, row, k, 1) == i && 0 <= 1 < 4);
            } else if i == c2 {
                assert(lo_cell(col, row, k, 2) == i && 0 <= 2 < 4);
            } else {
                assert(lo_cell(col, row, k, 3) == i && 0 <= 3 < 4);
            }
        } else {
            assert forall|q: int| 0 <= q < 4 implies lo_cell(col, row, k, q) != i by {}
        }
    }
    assert(sp.v == (if bit && (exists|q: int| 0 <= q < 4 && s.screen[layer][lo_cell(col, row, k, q)]) {
        s.v.update(15, 1)
    } else {
        s.v
    })) by {
        if bit && (s.screen[layer][c0] || s.screen[layer][c1] || s.screen[layer][c2]
            || s.screen[layer][c3]) {
            if s.screen[layer][c0] {
                assert(s.screen[layer][lo_cell(col, row, k, 0)] && 0 <= 0 < 4);
            } else if s.screen[layer][c1] {
                assert(s.screen[layer][lo_cell(col, row, k, 1)] && 0 <= 1 < 4);
            } else if s.screen[layer][c2] {
                assert(s.screen[layer][lo_cell(col, row, k, 2)] && 0 <= 2 < 4);
            } else {
                assert(s.screen[layer][lo_cell(col, row, k, 3)] && 0 <= 3 < 4);
            }
            assert(s.v.update(15, 1).update(15, 1) =~= s.v.update(15, 1));
        } else {
            assert forall|q: int| 0 <= q < 4 implies !(bit
                && s.screen[layer][lo_cell(col, row, k, q)]) by {}
        }
    }
}

/// Closed form of one low-resolution 8-wide row draw, the counterpart of
/// the high-resolution closed form with 2x2 blocks for pixels.
proof fn lemma_lo_row8_closed(s: CoreView, layer: int, col: u8, row: u8, b: u8, k: int)
    requires
        s.wf(),
        0 <= layer < 2,
        !s.hires_mode,
        0 <= k <= 8,
    ensures
        ({
            let s2 = draw_row8(s, layer, col, row, 0, b, k);
            let clip = s.quirks.clipping;
            &&& s2 == (CoreView { screen: s2.screen, v: s2.v, ..s })
            &&& s2.screen.len() == 2
            &&& forall|l: int| 0 <= l < 2 && l != layer ==> #[trigger] s2.screen[l] == s.screen[l]
            &&& s2.screen[layer].len() == 8192
            &&& forall|i: int|
                0 <= i < 8192 ==> #[trigger] s2.screen[layer][i] == (s.screen[layer][i]
                    != lo_covers(clip, col, row, b, k, i))
            &&& s2.v == (if lo_collides(clip, s.screen[layer], col, row, b, k) {
                s.v.update(15, 1)
            } else {
                s.v
            })
        }),
    decreases 8 - k,
{
    reveal(draw_row8);
    let clip = s.quirks.clipping;
    let s2 = draw_row8(s, layer, col, row, 0, b, k);
    if k == 8 {
        assert forall|i: int| 0 <= i < 8192 implies #[trigger] s2.screen[layer][i] == (
        s.screen[layer][i] != lo_covers(clip, col, row, b, k, i)) by {
            assert(!lo_covers(clip, col, row, b, 8, i));
        }
        assert(!lo_collides(clip, s.screen[layer], col, row, b, 8));
    } else {
        let bit = msb_bit8(b, k);
        let sp = put_pixel(s, layer, col, row, 0, k, bit);
        lemma_put_pixel_frame(s, layer, col, row, 0, k, bit);
        assert(sp.wf());
        if clip && (col as int) % 64 + k >= 64 {
            reveal(put_pixel);
            assert(sp == s);
            assert(!lo_pixel_on(clip, col, b, k));
        } else {
            lemma_lo_block_closed(s, layer, col, row, k, bit);
        }
        lemma_lo_row8_closed(sp, layer, col, row, b, k + 1);
        assert(s2 == draw_row8(sp, layer, col, row, 0, b, k + 1));
        // Cells of the later pixels are untouched by this one.
        assert forall|j: int, q: int| k + 1 <= j < 8 && 0 <= q < 4 implies #[trigger] sp.screen[layer][lo_cell(
            col,
            row,
            j,
            q,
        )] == s.screen[layer][lo_cell(col, row, j, q)] by {
            lemma_lo_cells(col, row, j, q, j, q);
            if !(clip && (col as int) % 64 + k >= 64) {
                assert forall|q2: int| 0 <= q2 < 4 implies lo_cell(col, row, k, q2) != lo_cell(
                    col,
                    row,
                    j,
                    q,
                ) by {
                    lemma_lo_cells(col, row, k, q2, j, q);
                }
            }
        }
        assert(lo_collides(clip, sp.screen[layer], col, row, b, k + 1) == lo_collides(
            clip,
            s.screen[layer],
            col,
            row,
            b,
            k + 1,
        )) by {
            if lo_collides(clip, sp.screen[layer], col, row, b, k + 1) {
                let (j, q) = choose|j: int, q: int|
                    k + 1 <= j < 8 && 0 <= q < 4 && lo_pixel_on(clip, col, b, j)
                        && sp.screen[layer][lo_cell(col, row, j, q)];
                assert(k + 1 <= j < 8 && 0 <= q < 4 && lo_pixel_on(clip, col, b, j)
                    && s.screen[layer][lo_cell(col, row, j, q)]);
            }
            if lo_collides(clip, s.screen[layer], col, row, b, k + 1) {
                let (j, q) = choose|j: int, q: int|
                    k + 1 <= j < 8 && 0 <= q < 4 && lo_pixel_on(clip, col, b, j)
                        && s.screen[layer][lo_cell(col, row, j, q)];
                assert(k + 1 <= j < 8 && 0 <= q < 4 && lo_pixel_on(clip, col, b, j)
                    && sp.screen[layer][lo_cell(col, row, j, q)]);
            }
        }
        // Cell-wise composition.
        assert forall|i: int| 0 <= i < 8192 implies #[trigger] s2.screen[layer][i] == (
        s.screen[layer][i] != lo_covers(clip, col, row, b, k, i)) by {
            let own = lo_pixel_on(clip, col, b, k) && exists|q: int|
                0 <= q < 4 && lo_cell(col, row, k, q) == i;
            if own {
                let q = choose|q: int| 0 <= q < 4 && lo_cell(col, row, k, q) == i;
                assert(lo_covers(clip, col, row, b, k, i));
                assert(!lo_covers(clip, col, row, b, k + 1, i)) by {
                    if lo_covers(clip, col, row, b, k + 1, i) {
                        let (j2, q2) = choose|j2: int, q2: int|
                            k + 1 <= j2 < 8 && 0 <= q2 < 4 && lo_pixel_on(clip, col, b, j2)
                                && lo_cell(col, row, j2, q2) == i;
                        lemma_lo_cells(col, row, k, q, j2, q2);
                    }
                }
                assert(sp.screen[layer][i] == !s.screen[layer][i]);
            } else {
                assert(sp.screen[layer][i] == s.screen[layer][i]) by {
                    if clip && (col as int) % 64 + k >= 64 {
                    } else {
                        if bit && exists|q: int| 0 <= q < 4 && lo_cell(col, row, k, q) == i {
                            assert(lo_pixel_on(clip, col, b, k));
                            assert(own);
                        }
                    }
                }
                assert(lo_covers(clip, col, row, b, k, i) == lo_covers(
                    clip,
                    col,
                    row,
                    b,
                    k + 1,
                    i,
                )) by {
                    if lo_covers(clip, col, row, b, k, i) {
                        let (j2, q2) = choose|j2: int, q2: int|
                            k <= j2 < 8 && 0 <= q2 < 4 && lo_pixel_on(clip, col, b, j2)
                                && lo_cell(col, row, j2, q2) == i;
                        if j2 == k {
                            assert(own);
                        }
                        assert(k + 1 <= j2 < 8 && 0 <= q2 < 4 && lo_pixel_on(clip, col, b, j2)
                            && lo_cell(col, row, j2, q2) == i);
                    }
                }
            }
        }
        // Collision composition.
        let own_hit = lo_pixel_on(clip, col, b, k) && exists|q: int|
            0 <= q < 4 && s.screen[layer][lo_cell(col, row, k, q)];
        assert(lo_collides(clip, s.screen[layer], col, row, b, k) == (own_hit || lo_collides(
            clip,
            s.screen[layer],
            col,
            row,
            b,
            k + 1,
        ))) by {
            if lo_collides(clip, s.screen[layer], col, row, b, k) {
                let (j2, q2) = choose|j2: int, q2: int|
                    k <= j2 < 8 && 0 <= q2 < 4 && lo_pixel_on(clip, col, b, j2)
                        && s.screen[layer][lo_cell(col, row, j2, q2)];
                if j2 == k {
                    assert(own_hit);
                } else {
                    assert(k + 1 <= j2 < 8 && 0 <= q2 < 4 && lo_pixel_on(clip, col, b, j2)
                        && s.screen[layer][lo_cell(col, row, j2, q2)]);
                }
            }
            if own_hit {
                let q = choose|q: int| 0 <= q < 4 && s.screen[layer][lo_cell(col, row, k, q)];
                assert(k <= k < 8 && 0 <= q < 4 && lo_pixel_on(clip, col, b, k)
                    && s.screen[layer][lo_cell(col, row, k, q)]);
            }
            if lo_collides(clip, s.screen[layer], col, row, b, k + 1) {
                let (j2, q2) = choose|j2: int, q2: int|
                    k + 1 <= j2 < 8 && 0 <= q2 < 4 && lo_pixel_on(clip, col, b, j2)
                        && s.screen[layer][lo_cell(col, row, j2, q2)];
                assert(k <= j2 < 8 && 0 <= q2 < 4 && lo_pixel_on(clip, col, b, j2)
                    && s.screen[layer][lo_cell(col, row, j2, q2)]);
            }
        }
        assert(s.v.update(15, 1).update(15, 1) =~= s.v.update(15, 1));
    }
}

/// One draw of an 8x1 sprite in high-resolution mode with plane 0 alone
/// selected: the flag is cleared and then set exactly on a collision, and
/// plane 0 is XOR-ed with the drawn pixels of the sprite byte at `i`.
proof fn lemma_draw8x1_once(s: CoreView, x: u8, y: u8)
    requires
        s.wf(),
        s.hires_mode,
        s.bit_plane_selector == 1,
        x < 16,
        y < 16,
    ensures
        ({
            let o = exec_draw(s, x, y, 1);
            let col = s.v[x as int];
            let row = s.v[y as int];
            let b = s.memory[s.i as int];
            let clip = s.quirks.clipping;
            let s0v = s.v.update(15, 0);
            &&& o.fault is None
            &&& o.s == (CoreView {
                screen: o.s.screen,
                v: o.s.v,
                waiting_for_vblank: o.s.waiting_for_vblank,
                ..s
            })
            &&& o.s.waiting_for_vblank == (s.quirks.display_wait || s.waiting_for_vblank)
            &&& o.s.screen.len() == 2
            &&& o.s.screen[1] == s.screen[1]
            &&& o.s.screen[0].len() == 8192
            &&& forall|i: int|
                0 <= i < 8192 ==> #[trigger] o.s.screen[0][i] == (s.screen[0][i] != row_covers(
                    clip,
                    col,
                    row,
                    b,
                    0,
                    i,
                ))
            &&& o.s.v == (if row_collides(clip, s.screen[0], col, row, b, 0) {
                s0v.update(15, 1)
            } else {
                s0v
            })
        }),
{
    reveal(exec_draw);
    reveal(draw_planes_spec);
    reveal(draw_layer);
    reveal(draw8);
    reveal(draw_row8);
    let col = s.v[x as int];
    let row = s.v[y as int];
    let b = s.memory[s.i as int];
    let s0 = CoreView { v: s.v.update(15, 0), ..s };
    assert(plane_selected(1, 0));
    assert(!plane_selected(1, 1));
    assert(s0.wf());
    let sr = draw_row8(s0, 0, col, row, 0, b, 0);
    assert(draw_layer(s0, 0, 0, col, row, 1) == draw8(s0, 0, s0.i as int, col, row, 1, 0));
    assert(draw8(s0, 0, s0.i as int, col, row, 1, 0) == draw8(sr, 0, s0.i as int, col, row, 1, 1));
    assert(draw8(sr, 0, s0.i as int, col, row, 1, 1) == step_ok(sr));
    lemma_row8_closed(s0, 0, col, row, b, 0);
}

/// Drawing the same 8x1 sprite twice at the same coordinates (plane 0
/// alone selected, high-resolution mode, coordinate registers distinct
/// from the flag register) returns the display to its pre-draw state, and
/// the second draw leaves the flag at 1 exactly when the first draw
/// turned some cell on.
pub proof fn lemma_draw_twice_restores(s: CoreView, x: u8, y: u8)
    requires
        s.wf(),
        s.hires_mode,
        s.bit_plane_selector == 1,
        x < 16,
        y < 16,
        x != 15,
        y != 15,
    ensures
        ({
            let o1 = exec_draw(s, x, y, 1);
            let o2 = exec_draw(o1.s, x, y, 1);
            &&& o1.fault is None
            &&& o2.fault is None
            &&& forall|l: int, i: int|
                0 <= l < 2 && 0 <= i < 8192 ==> #[trigger] o2.s.screen[l][i] == s.screen[l][i]
            &&& (o2.s.v[15] == 1 <==> exists|i: int|
                0 <= i < 8192 && #[trigger] o1.s.screen[0][i] && !s.screen[0][i])
        }),
{
    let col = s.v[x as int];
    let row = s.v[y as int];
    let b = s.memory[s.i as int];
    let clip = s.quirks.clipping;
    let o1 = exec_draw(s, x, y, 1);
    lemma_draw8x1_once(s, x, y);
    assert(o1.s.wf());
    assert(o1.s.v[x as int] == col);
    assert(o1.s.v[y as int] == row);
    assert(o1.s.memory[o1.s.i as int] == b);
    let o2 = exec_draw(o1.s, x, y, 1);
    lemma_draw8x1_once(o1.s, x, y);
    // The second XOR of the same cover restores every cell.
    assert forall|l: int, i: int| 0 <= l < 2 && 0 <= i < 8192 implies #[trigger] o2.s.screen[l][i]
        == s.screen[l][i] by {
        if l == 0 {
            assert(o2.s.screen[0][i] == (o1.s.screen[0][i] != row_covers(clip, col, row, b, 0, i)));
            assert(o1.s.screen[0][i] == (s.screen[0][i] != row_covers(clip, col, row, b, 0, i)));
        } else {
            assert(o2.s.screen[1] == o1.s.screen[1]);
            assert(o1.s.screen[1] == s.screen[1]);
        }
    }
    // The second draw collides exactly where the first draw set a cell.
    let collides2 = row_collides(clip, o1.s.screen[0], col, row, b, 0);
    assert(o2.s.v[15] == (if collides2 {
        1u8
    } else {
        0u8
    }));
    if collides2 {
        let j = choose|j: int|
            0 <= j < 8 && pixel_on(clip, col, b, j) && o1.s.screen[0][hit_cell(col, row, j)];
        lemma_hit_cells(col, row, j, j);
        let i = hit_cell(col, row, j);
        assert(row_covers(clip, col, row, b, 0, i));
        assert(o1.s.screen[0][i] == !s.screen[0][i]);
        assert(o1.s.screen[0][i] && !s.screen[0][i]);
    }
    if exists|i: int| 0 <= i < 8192 && #[trigger] o1.s.screen[0][i] && !s.screen[0][i] {
        let i = choose|i: int| 0 <= i < 8192 && #[trigger] o1.s.screen[0][i] && !s.screen[0][i];
        assert(o1.s.screen[0][i] == (s.screen[0][i] != row_covers(clip, col, row, b, 0, i)));
        assert(row_covers(clip, col, row, b, 0, i));
        let j = choose|j: int|
            0 <= j < 8 && pixel_on(clip, col, b, j) && hit_cell(col, row, j) == i;
        assert(0 <= j < 8 && pixel_on(clip, col, b, j) && o1.s.screen[0][hit_cell(col, row, j)]);
        assert(collides2);
    }
}

/// One draw of an 8x1 sprite in low-resolution mode with plane 0 alone
/// selected, the counterpart of the high-resolution one-draw form.
proof fn lemma_lo_draw8x1_once(s: CoreView, x: u8, y: u8)
    requires
        s.wf(),
        !s.hires_mode,
        s.bit_plane_selector == 1,
        x < 16,
        y < 16,
    ensures
        ({
            let o = exec_draw(s, x, y, 1);
            let col = s.v[x as int];
            let row = s.v[y as int];
            let b = s.memory[s.i as int];
            let clip = s.quirks.clipping;
            let s0v = s.v.update(15, 0);
            &&& o.fault is None
            &&& o.s == (CoreView {
                screen: o.s.screen,
                v: o.s.v,
                waiting_for_vblank: o.s.waiting_for_vblank,
                ..s
            })
            &&& o.s.screen.len() == 2
            &&& o.s.screen[1] == s.screen[1]
            &&& o.s.screen[0].len() == 8192
            &&& forall|i: int|
                0 <= i < 8192 ==> #[trigger] o.s.screen[0][i] == (s.screen[0][i] != lo_covers(
                    clip,
                    col,
                    row,
                    b,
                    0,
                    i,
                ))
            &&& o.s.v == (if lo_collides(clip, s.screen[0], col, row, b, 0) {
                s0v.update(15, 1)
            } else {
                s0v
            })
        }),
{
    reveal(exec_draw);
    reveal(draw_planes_spec);
    reveal(draw_layer);
    reveal(draw8);
    reveal(draw_row8);
    let col = s.v[x as int];
    let row = s.v[y as int];
    let b = s.memory[s.i as int];
    let s0 = CoreView { v: s.v.update(15, 0), ..s };
    assert(plane_selected(1, 0));
    assert(!plane_selected(1, 1));
    assert(s0.wf());
    let sr = draw_row8(s0, 0, col, row, 0, b, 0);
    assert(draw_layer(s0, 0, 0, col, row, 1) == draw8(s0, 0, s0.i as int, col, row, 1, 0));
    assert(draw8(s0, 0, s0.i as int, col, row, 1, 0) == draw8(sr, 0, s0.i as int, col, row, 1, 1));
    assert(draw8(sr, 0, s0.i as int, col, row, 1, 1) == step_ok(sr));
    lemma_lo_row8_closed(s0, 0, col, row, b, 0);
}

/// Drawing the same 8x1 sprite twice at the same coordinates in
/// low-resolution mode (plane 0 alone selected, coordinate registers
/// distinct from the flag register) returns the display to its pre-draw
/// state, and the second draw leaves the flag at 1 exactly when the first
/// draw turned some cell on.
pub proof fn lemma_lores_draw_twice_restores(s: CoreView, x: u8, y: u8)
    requires
        s.wf(),
        !s.hires_mode,
        s.bit_plane_selector == 1,
        x < 16,
        y < 16,
        x != 15,
        y != 15,
    ensures
        ({
            let o1 = exec_draw(s, x, y, 1);
            let o2 = exec_draw(o1.s, x, y, 1);
            &&& o1.fault is None
            &&& o2.fault is None
            &&& forall|l: int, i: int|
                0 <= l < 2 && 0 <= i < 8192 ==> #[trigger] o2.s.screen[l][i] == s.screen[l][i]
            &&& (o2.s.v[15] == 1 <==> exists|i: int|
                0 <= i < 8192 && #[trigger] o1.s.screen[0][i] && !s.screen[0][i])
        }),
{
    let col = s.v[x as int];
    let row = s.v[y as int];
    let b = s.memory[s.i as int];
    let clip = s.quirks.clipping;
    let o1 = exec_draw(s, x, y, 1);
    lemma_lo_draw8x1_once(s, x, y);
    assert(o1.s.wf());
    assert(o1.s.v[x as int] == col);
    assert(o1.s.v[y as int] == row);
    assert(o1.s.memory[o1.s.i as int] == b);
    let o2 = exec_draw(o1.s, x, y, 1);
    lemma_lo_draw8x1_once(o1.s, x, y);
    assert forall|l: int, i: int| 0 <= l < 2 && 0 <= i < 8192 implies #[trigger] o2.s.screen[l][i]
        == s.screen[l][i] by {
        if l == 0 {
            assert(o2.s.screen[0][i] == (o1.s.screen[0][i] != lo_covers(clip, col, row, b, 0, i)));
            assert(o1.s.screen[0][i] == (s.screen[0][i] != lo_covers(clip, col, row, b, 0, i)));
        } else {
            assert(o2.s.screen[1] == o1.s.screen[1]);
            assert(o1.s.screen[1] == s.screen[1]);
        }
    }
    let collides2 = lo_collides(clip, o1.s.screen[0], col, row, b, 0);
    assert(o2.s.v[15] == (if collides2 {
        1u8
    } else {
        0u8
    }));
    if collides2 {
        let (j, q) = choose|j: int, q: int|
            0 <= j < 8 && 0 <= q < 4 && lo_pixel_on(clip, col, b, j) && o1.s.screen[0][lo_cell(
                col,
                row,
                j,
                q,
            )];
        lemma_lo_cells(col, row, j, q, j, q);
        let i = lo_cell(col, row, j, q);
        assert(lo_covers(clip, col, row, b, 0, i));
        assert(o1.s.screen[0][i] == !s.screen[0][i]);
        assert(o1.s.screen[0][i] && !s.screen[0][i]);
    }
    if exists|i: int| 0 <= i < 8192 && #[trigger] o1.s.screen[0][i] && !s.screen[0][i] {
        let i = choose|i: int| 0 <= i < 8192 && #[trigger] o1.s.screen[0][i] && !s.screen[0][i];
        assert(o1.s.screen[0][i] == (s.screen[0][i] != lo_covers(clip, col, row, b, 0, i)));
        assert(lo_covers(clip, col, row, b, 0, i));
        let (j, q) = choose|j: int, q: int|
            0 <= j < 8 && 0 <= q < 4 && lo_pixel_on(clip, col, b, j) && lo_cell(col, row, j, q)
                == i;
        assert(0 <= j < 8 && 0 <= q < 4 && lo_pixel_on(clip, col, b, j) && o1.s.screen[0][lo_cell(
            col,
            row,
            j,
            q,
        )]);
        assert(collides2);
    }
}

/// The wrapping-add opcode leaves every byte pair with the documented
/// 8-bit result and carry: the destination takes `(v[x] + v[y]) % 256`
/// and the flag register takes 1 exactly on overflow, the flag written
/// after the destination.
pub proof fn lemma_add_semantics(s: CoreView, rnd: u8)
    requires
        s.wf(),
        s.ready(),
        spec_decode(word_at(s.memory, s.pc)) matches Instr::Add(_, _),
    ensures
        ({
            let op = word_at(s.memory, s.pc);
            let x = op_x(op);
            let y = op_y(op);
            spec_step(s, rnd) == step_ok(CoreView {
                pc: wrap16(s.pc + 2),
                v: s.v.update(x as int, add8(s.v[x as int], s.v[y as int])).update(
                    15,
                    carry8(s.v[x as int], s.v[y as int]),
                ),
                ..s
            })
        }),
{
}

/// The wrapping-subtract opcode: the destination takes
/// `(v[x] - v[y]) mod 256` and the flag takes 1 exactly when no borrow
/// occurred (`v[x] >= v[y]`).
pub proof fn lemma_sub_semantics(s: CoreView, rnd: u8)
    requires
        s.wf(),
        s.ready(),
        spec_decode(word_at(s.memory, s.pc)) matches Instr::Sub(_, _),
    ensures
        ({
            let op = word_at(s.memory, s.pc);
            let x = op_x(op);
            let y = op_y(op);
            spec_step(s, rnd) == step_ok(CoreView {
                pc: wrap16(s.pc + 2),
                v: s.v.update(x as int, sub8(s.v[x as int], s.v[y as int])).update(
                    15,
                    noborrow8(s.v[x as int], s.v[y as int]),
                ),
                ..s
            })
        }),
{
}

/// The reversed subtract opcode: the destination takes
/// `(v[y] - v[x]) mod 256` and the flag takes 1 exactly when no borrow
/// occurred (`v[y] >= v[x]`).
pub proof fn lemma_subn_semantics(s: CoreView, rnd: u8)
    requires
        s.wf(),
        s.ready(),
        spec_decode(word_at(s.memory, s.pc)) matches Instr::Subn(_, _),
    ensures
        ({
            let op = word_at(s.memory, s.pc);
            let x = op_x(op);
            let y = op_y(op);
            spec_step(s, rnd) == step_ok(CoreView {
                pc: wrap16(s.pc + 2),
                v: s.v.update(x as int, sub8(s.v[y as int], s.v[x as int])).update(
                    15,
                    noborrow8(s.v[y as int], s.v[x as int]),
                ),
                ..s
            })
        }),
{
}

/// The shift-right opcode: the source register (chosen by the shift
/// quirk) is halved into the destination and the shifted-out bit goes to
/// the flag.
pub proof fn lemma_shr_semantics(s: CoreView, rnd: u8)
    requires
        s.wf(),
        s.ready(),
        spec_decode(word_at(s.memory, s.pc)) matches Instr::Shr(_, _),
    ensures
        ({
            let op = word_at(s.memory, s.pc);
            let x = op_x(op);
            let y = op_y(op);
            let src = if s.quirks.shifting_vx {
                s.v[x as int]
            } else {
                s.v[y as int]
            };
            spec_step(s, rnd) == step_ok(CoreView {
                pc: wrap16(s.pc + 2),
                v: s.v.update(x as int, src / 2).update(15, src % 2),
                ..s
            })
        }),
{
}

/// The shift-left opcode: the source register (chosen by the shift
/// quirk) is doubled mod 256 into the destination and the shifted-out
/// bit goes to the flag.
pub proof fn lemma_shl_semantics(s: CoreView, rnd: u8)
    requires
        s.wf(),
        s.ready(),
        spec_decode(word_at(s.memory, s.pc)) matches Instr::Shl(_, _),
    ensures
        ({
            let op = word_at(s.memory, s.pc);
            let x = op_x(op);
            let y = op_y(op);
            let src = if s.quirks.shifting_vx {
                s.v[x as int]
            } else {
                s.v[y as int]
            };
            spec_step(s, rnd) == step_ok(CoreView {
                pc: wrap16(s.pc + 2),
                v: s.v.update(x as int, shl8(src)).update(15, src / 128),
                ..s
            })
        }),
{
}

/// The clear-screen opcode empties every cell of every selected plane and
/// leaves unselected planes untouched; nothing else changes but `pc`.
pub proof fn lemma_cls_semantics(s: CoreView, rnd: u8)
    requires
        s.wf(),
        s.ready(),
        spec_decode(word_at(s.memory, s.pc)) == Instr::Cls,
    ensures
        ({
            let out = spec_step(s, rnd);
            &&& out.fault is None
            &&& out.s == (CoreView {
                pc: wrap16(s.pc + 2),
                screen: screen_cleared(s.screen, s.bit_plane_selector),
                ..s
            })
            &&& forall|l: int, i: int|
                0 <= l < 2 && 0 <= i < 8192 && plane_selected(s.bit_plane_selector, l)
                    ==> !(#[trigger] out.s.screen[l][i])
            &&& forall|l: int|
                0 <= l < 2 && !plane_selected(s.bit_plane_selector, l)
                    ==> #[trigger] out.s.screen[l] == s.screen[l]
        }),
{
    let out = spec_step(s, rnd);
    assert forall|l: int, i: int|
        0 <= l < 2 && 0 <= i < 8192 && plane_selected(s.bit_plane_selector, l) implies !(
    #[trigger] out.s.screen[l][i]) by {
        assert(out.s.screen[l] == plane_off());
    }
}

/// A call followed by a return comes back to the instruction after the
/// call, with the stack depth restored, whenever the call target holds
/// the return opcode.
pub proof fn lemma_call_ret(s: CoreView, rnd1: u8, rnd2: u8)
    requires
        s.wf(),
        s.ready(),
        s.sp < 16,
        spec_decode(word_at(s.memory, s.pc)) matches Instr::Call(_),
        word_at(s.memory, op_nnn(word_at(s.memory, s.pc))) == 0x00EE,
    ensures
        ({
            let out1 = spec_step(s, rnd1);
            let out2 = spec_step(out1.s, rnd2);
            &&& out1.fault is None
            &&& out2.fault is None
            &&& out2.s.pc == wrap16(s.pc + 2)
            &&& out2.s.sp == s.sp
            &&& out2.s.v == s.v
            &&& out2.s.memory == s.memory
        }),
{
    let op = word_at(s.memory, s.pc);
    let out1 = spec_step(s, rnd1);
    assert(out1.s.pc == op_nnn(op));
    assert(spec_decode(word_at(out1.s.memory, out1.s.pc)) == Instr::Ret);
}

/// A call faults with the stack-fault condition exactly when all sixteen
/// stack slots are in use; otherwise it pushes the return address.
pub proof fn lemma_call_overflow(s: CoreView, rnd: u8)
    requires
        s.wf(),
        s.ready(),
        spec_decode(word_at(s.memory, s.pc)) matches Instr::Call(_),
    ensures
        ({
            let out = spec_step(s, rnd);
            &&& (out.fault is Some <==> s.sp == 16)
            &&& s.sp == 16 ==> out.fault == Some(
                CoreErrorType::StackOverflow(wrap16(s.pc + 2), s.sp),
            )
            &&& s.sp < 16 ==> out.s.sp == s.sp + 1 && out.s.stack[s.sp as int] == wrap16(s.pc + 2)
        }),
{
}

/// A return faults with the stack-fault condition exactly when the stack
/// is empty; otherwise it pops the most recent return address.
pub proof fn lemma_ret_underflow(s: CoreView, rnd: u8)
    requires
        s.wf(),
        s.ready(),
        spec_decode(word_at(s.memory, s.pc)) == Instr::Ret,
    ensures
        ({
            let out = spec_step(s, rnd);
            &&& (out.fault is Some <==> s.sp == 0)
            &&& s.sp == 0 ==> out.fault == Some(
                CoreErrorType::StackOverflow(wrap16(s.pc + 2), s.sp),
            )
            &&& s.sp > 0 ==> out.s.sp == s.sp - 1 && out.s.pc == s.stack[s.sp - 1]
        }),
{
}

/// Replacing the quirk record takes effect on the very next relevant
/// opcode with no transitional state: a shift-right reads its source from
/// the register the current record names, whatever record was active
/// before.
pub proof fn lemma_shift_follows_current_quirks(s: CoreView, q: crate::quirks::Quirks, rnd: u8)
    requires
        s.wf(),
        s.ready(),
        spec_decode(word_at(s.memory, s.pc)) matches Instr::Shr(_, _),
        op_x(word_at(s.memory, s.pc)) != 15,
    ensures
        ({
            let s2 = CoreView { quirks: q, ..s };
            let op = word_at(s.memory, s.pc);
            let x = op_x(op);
            let y = op_y(op);
            spec_step(s2, rnd).s.v[x as int] == (if q.shifting_vx {
                s.v[x as int] / 2
            } else {
                s.v[y as int] / 2
            })
        }),
{
}

/// Replacing the quirk record takes effect on the very next relevant
/// opcode with no transitional state: a bitwise-or clears the flag
/// register exactly when the current record's flag-reset toggle is set.
pub proof fn lemma_or_follows_current_quirks(s: CoreView, q: crate::quirks::Quirks, rnd: u8)
    requires
        s.wf(),
        s.ready(),
        spec_decode(word_at(s.memory, s.pc)) matches Instr::Or(_, _),
        op_x(word_at(s.memory, s.pc)) != 15,
    ensures
        ({
            let s2 = CoreView { quirks: q, ..s };
            spec_step(s2, rnd).s.v[15] == (if q.vf_reset {
                0u8
            } else {
                s.v[15]
            })
        }),
{
}

/// A bulk register store leaves the index register unchanged without the
/// index quirk, and advances it by `x + 1` with it, whenever the store
/// stays inside the memory bound.
pub proof fn lemma_store_regs_index(s: CoreView, rnd: u8)
    requires
        s.wf(),
        s.ready(),
        spec_decode(word_at(s.memory, s.pc)) matches Instr::StoreRegs(_),
        s.i + op_x(word_at(s.memory, s.pc)) <= 0xFFFF,
    ensures
        ({
            let op = word_at(s.memory, s.pc);
            let x = op_x(op);
            let s1 = CoreView { pc: wrap16(s.pc + 2), ..s };
            let out = spec_step(s, rnd);
            &&& out.fault is None
            &&& out.s.i == (if s.quirks.load_store_index_increase {
                wrap16(s.i + x + 1)
            } else {
                s.i
            })
            &&& out.s.memory == store_regs_mem(s.memory, s.v, s.i as int, x as int)
            &&& bulk_index_after(s1, x) == out.s.i
        }),
{
}

} // verus!
