//! The two-plane display buffer: a 64x128 grid of cells, each cell holding
//! one boolean per plane. The execution core is its only writer; renderers
//! read snapshots taken with `Chip8::get_screen`.
//!
//! Each plane is modelled as a flat sequence of `DISPLAY_ROWS *
//! DISPLAY_COLS` booleans, cell `(row, col)` at index `row * DISPLAY_COLS +
//! col`.

use crate::types::{DISPLAY_COLS, DISPLAY_LAYERS, DISPLAY_ROWS};
use vstd::prelude::*;

verus! {

/// Cells in one plane.
pub const PLANE_CELLS: usize = 8192;

/// Flat index of cell `(row, col)` within a plane.
pub open spec fn cell_index(row: int, col: int) -> int {
    row * 128 + col
}

/// A plane with every cell off.
pub open spec fn plane_off() -> Seq<bool> {
    Seq::new(8192, |i: int| false)
}

/// A plane scrolled up by `d` rows: vacated bottom rows are cleared.
pub open spec fn plane_scrolled_up(p: Seq<bool>, d: int) -> Seq<bool> {
    Seq::new(8192, |i: int| if i / 128 + d < 64 { p[i + d * 128] } else { false })
}

/// A plane scrolled down by `d` rows: vacated top rows are cleared.
pub open spec fn plane_scrolled_down(p: Seq<bool>, d: int) -> Seq<bool> {
    Seq::new(8192, |i: int| if i / 128 >= d { p[i - d * 128] } else { false })
}

/// A plane scrolled left by `d` columns: vacated right columns are cleared.
pub open spec fn plane_scrolled_left(p: Seq<bool>, d: int) -> Seq<bool> {
    Seq::new(8192, |i: int| if i % 128 + d < 128 { p[i + d] } else { false })
}

/// A plane scrolled right by `d` columns: vacated left columns are cleared.
pub open spec fn plane_scrolled_right(p: Seq<bool>, d: int) -> Seq<bool> {
    Seq::new(8192, |i: int| if i % 128 >= d { p[i - d] } else { false })
}

/// The shared, exclusively owned pixel grid.
pub struct Display {
    planes: Vec<Vec<bool>>,
}

impl View for Display {
    type V = Seq<Seq<bool>>;

    closed spec fn view(&self) -> Seq<Seq<bool>> {
        Seq::new(self.planes@.len(), |l: int| self.planes@[l]@)
    }
}

impl Display {
    /// Both planes present, each with one boolean per grid cell.
    pub open spec fn wf(&self) -> bool {
        &&& self@.len() == 2
        &&& forall|l: int| 0 <= l < 2 ==> (#[trigger] self@[l]).len() == 8192
    }

    /// Creates a display with every cell of every plane off.
    pub fn new() -> (r: Display)
        ensures
            r.wf(),
            r@ =~~= Seq::new(2, |l: int| plane_off()),
    {
        let mut planes: Vec<Vec<bool>> = Vec::new();
        let mut l: usize = 0;
        while l < DISPLAY_LAYERS
            invariant
                planes@.len() == l,
                l <= 2,
                forall|j: int| 0 <= j < l ==> (#[trigger] planes@[j])@ =~= plane_off(),
            decreases 2 - l,
        {
            planes.push(Self::off_plane());
            l += 1;
        }
        let d = Display { planes };
        proof {
            assert forall|j: int| 0 <= j < 2 implies d@[j] == plane_off() by {
                assert(d@[j] == d.planes@[j]@);
                assert(d.planes@[j]@ =~= plane_off());
            }
            assert(d@ =~~= Seq::new(2, |l: int| plane_off()));
        }
        d
    }

    /// One plane's worth of cleared cells.
    fn off_plane() -> (r: Vec<bool>)
        ensures
            r@ =~= plane_off(),
    {
        let mut p: Vec<bool> = Vec::new();
        let mut i: usize = 0;
        while i < PLANE_CELLS
            invariant
                p@.len() == i,
                i <= 8192,
                forall|j: int| 0 <= j < i ==> !(#[trigger] p@[j]),
            decreases 8192 - i,
        {
            p.push(false);
            i += 1;
        }
        p
    }

    /// Clears every cell of one plane; the other plane is untouched.
    pub fn clear_plane(&mut self, layer: usize)
        requires
            old(self).wf(),
            layer < 2,
        ensures
            final(self).wf(),
            final(self)@ =~= old(self)@.update(layer as int, plane_off()),
    {
        let p = Self::off_plane();
        self.planes.set(layer, p);
        proof {
            assert(self@ =~= old(self)@.update(layer as int, plane_off()));
        }
    }

    /// Replaces one plane so that cell `(r, c)` reads the old cell
    /// `(r + dr, c - dc)`: content moves up by `dr` rows (negative: down)
    /// and right by `dc` columns (negative: left). Vacated cells are
    /// cleared, not wrapped.
    fn shift_plane(&mut self, layer: usize, dr: i32, dc: i32)
        requires
            old(self).wf(),
            layer < 2,
            -64 < dr < 64,
            -128 < dc < 128,
        ensures
            final(self).wf(),
            final(self)@.len() == old(self)@.len(),
            final(self)@[layer as int] =~= Seq::new(8192, |i: int| {
                let r2 = i / 128 + dr;
                let c2 = i % 128 - dc;
                if 0 <= r2 < 64 && 0 <= c2 < 128 {
                    old(self)@[layer as int][r2 * 128 + c2]
                } else {
                    false
                }
            }),
            forall|l: int| 0 <= l < 2 && l != layer ==> final(self)@[l] == old(self)@[l],
    {
        let ghost target: Seq<bool> = Seq::new(8192, |i: int| {
            let r2 = i / 128 + dr;
            let c2 = i % 128 - dc;
            if 0 <= r2 < 64 && 0 <= c2 < 128 {
                old(self)@[layer as int][r2 * 128 + c2]
            } else {
                false
            }
        });
        let mut p: Vec<bool> = Vec::new();
        let mut r: usize = 0;
        while r < DISPLAY_ROWS
            invariant
                old(self).wf(),
                layer < 2,
                -64 < dr < 64,
                -128 < dc < 128,
                r <= 64,
                p@.len() == r * 128,
                forall|j: int| 0 <= j < r * 128 ==> #[trigger] p@[j] == target[j],
                target == Seq::new(8192, |i: int| {
                    let r2 = i / 128 + dr;
                    let c2 = i % 128 - dc;
                    if 0 <= r2 < 64 && 0 <= c2 < 128 {
                        old(self)@[layer as int][r2 * 128 + c2]
                    } else {
                        false
                    }
                }),
            decreases 64 - r,
        {
            let mut c: usize = 0;
            while c < DISPLAY_COLS
                invariant
                    old(self).wf(),
                    layer < 2,
                    -64 < dr < 64,
                    -128 < dc < 128,
                    r < 64,
                    c <= 128,
                    p@.len() == r * 128 + c,
                    forall|j: int| 0 <= j < r * 128 + c ==> #[trigger] p@[j] == target[j],
                    target == Seq::new(8192, |i: int| {
                        let r2 = i / 128 + dr;
                        let c2 = i % 128 - dc;
                        if 0 <= r2 < 64 && 0 <= c2 < 128 {
                            old(self)@[layer as int][r2 * 128 + c2]
                        } else {
                            false
                        }
                    }),
                decreases 128 - c,
            {
                let r2: i32 = r as i32 + dr;
                let c2: i32 = c as i32 - dc;
                let bit: bool = if 0 <= r2 && r2 < 64 && 0 <= c2 && c2 < 128 {
                    *self.planes[layer].get((r2 as usize) * 128 + (c2 as usize)).unwrap()
                } else {
                    false
                };
                proof {
                    let i = r * 128 + c;
                    assert(i / 128 == r && i % 128 == c) by (nonlinear_arith)
                        requires
                            0 <= r < 64,
                            0 <= c < 128,
                            i == r * 128 + c,
                    ;
                    assert(target[i as int] == bit);
                }
                p.push(bit);
                c += 1;
            }
            r += 1;
        }
        self.planes.set(layer, p);
        proof {
            assert(self@.len() == 2);
            assert(self@[layer as int] == self.planes@[layer as int]@);
            assert(self@[layer as int] =~= target);
            assert forall|l: int| 0 <= l < 2 implies (#[trigger] self@[l]).len() == 8192 by {
                assert(self@[l] == self.planes@[l]@);
                if l != layer as int {
                    assert(self.planes@[l] == old(self).planes@[l]);
                    assert(old(self)@[l] == old(self).planes@[l]@);
                    assert(old(self)@[l].len() == 8192);
                }
            }
            assert forall|l: int| 0 <= l < 2 && l != layer implies self@[l] == old(self)@[l] by {
                assert(self@[l] == self.planes@[l]@);
                assert(old(self)@[l] == old(self).planes@[l]@);
            }
        }
    }

    /// Scrolls one plane up by `d` rows.
    pub fn scroll_plane_up(&mut self, layer: usize, d: usize)
        requires
            old(self).wf(),
            layer < 2,
            d < 64,
        ensures
            final(self).wf(),
            final(self)@ =~= old(self)@.update(layer as int, plane_scrolled_up(old(self)@[layer as int], d as int)),
    {
        self.shift_plane(layer, d as i32, 0);
        proof {
            assert(self@[layer as int] =~= plane_scrolled_up(old(self)@[layer as int], d as int)) by {
                let target = self@[layer as int];
                let want = plane_scrolled_up(old(self)@[layer as int], d as int);
                assert forall|i: int| 0 <= i < 8192 implies target[i] == want[i] by {
                    assert((i / 128 + d) * 128 + i % 128 == i + d * 128) by (nonlinear_arith);
                }
            }
            assert(self@ =~= old(self)@.update(layer as int, plane_scrolled_up(old(self)@[layer as int], d as int)));
        }
    }

    /// Scrolls one plane down by `d` rows.
    pub fn scroll_plane_down(&mut self, layer: usize, d: usize)
        requires
            old(self).wf(),
            layer < 2,
            d < 64,
        ensures
            final(self).wf(),
            final(self)@ =~= old(self)@.update(layer as int, plane_scrolled_down(old(self)@[layer as int], d as int)),
    {
        self.shift_plane(layer, 0 - (d as i32), 0);
        proof {
            assert(self@[layer as int] =~= plane_scrolled_down(old(self)@[layer as int], d as int)) by {
                let target = self@[layer as int];
                let want = plane_scrolled_down(old(self)@[layer as int], d as int);
                assert forall|i: int| 0 <= i < 8192 implies target[i] == want[i] by {
                    assert((i / 128 - d) * 128 + i % 128 == i - d * 128) by (nonlinear_arith);
                    assert(i / 128 - d >= 0 <==> i / 128 >= d);
                    assert(i / 128 < 64);
                }
            }
            assert(self@ =~= old(self)@.update(layer as int, plane_scrolled_down(old(self)@[layer as int], d as int)));
        }
    }

    /// Scrolls one plane left by `d` columns.
    pub fn scroll_plane_left(&mut self, layer: usize, d: usize)
        requires
            old(self).wf(),
            layer < 2,
            d < 128,
        ensures
            final(self).wf(),
            final(self)@ =~= old(self)@.update(layer as int, plane_scrolled_left(old(self)@[layer as int], d as int)),
    {
        self.shift_plane(layer, 0, 0 - (d as i32));
        proof {
            assert(self@[layer as int] =~= plane_scrolled_left(old(self)@[layer as int], d as int)) by {
                let target = self@[layer as int];
                let want = plane_scrolled_left(old(self)@[layer as int], d as int);
                assert forall|i: int| 0 <= i < 8192 implies target[i] == want[i] by {
                    assert((i / 128) * 128 + (i % 128 + d) == i + d) by (nonlinear_arith);
                    assert(0 <= i % 128 + d);
                }
            }
            assert(self@ =~= old(self)@.update(layer as int, plane_scrolled_left(old(self)@[layer as int], d as int)));
        }
    }

    /// Scrolls one plane right by `d` columns.
    pub fn scroll_plane_right(&mut self, layer: usize, d: usize)
        requires
            old(self).wf(),
            layer < 2,
            d < 128,
        ensures
            final(self).wf(),
            final(self)@ =~= old(self)@.update(layer as int, plane_scrolled_right(old(self)@[layer as int], d as int)),
    {
        self.shift_plane(layer, 0, d as i32);
        proof {
            assert(self@[layer as int] =~= plane_scrolled_right(old(self)@[layer as int], d as int)) by {
                let target = self@[layer as int];
                let want = plane_scrolled_right(old(self)@[layer as int], d as int);
                assert forall|i: int| 0 <= i < 8192 implies target[i] == want[i] by {
                    assert((i / 128) * 128 + (i % 128 - d) == i - d) by (nonlinear_arith);
                    assert(i % 128 - d < 128);
                }
            }
            assert(self@ =~= old(self)@.update(layer as int, plane_scrolled_right(old(self)@[layer as int], d as int)));
        }
    }

    /// XORs `bit` into the cell `(row, col)` of one plane and reports
    /// whether a set pixel collided (both the cell and `bit` were on).
    pub fn xor_cell(&mut self, layer: usize, row: usize, col: usize, bit: bool) -> (collision: bool)
        requires
            old(self).wf(),
            layer < 2,
            row < 64,
            col < 128,
        ensures
            final(self).wf(),
            final(self)@ =~= old(self)@.update(
                layer as int,
                old(self)@[layer as int].update(
                    cell_index(row as int, col as int),
                    old(self)@[layer as int][cell_index(row as int, col as int)] != bit,
                ),
            ),
            collision == (bit && old(self)@[layer as int][cell_index(row as int, col as int)]),
    {
        let idx: usize = row * 128 + col;
        proof {
            assert(*self == *old(self));
            assert(self@[layer as int] == self.planes@[layer as int]@);
            assert(self@[layer as int].len() == 8192);
            assert(idx < 8192);
        }
        let cur: bool = self.planes[layer][idx];
        let pl: &mut Vec<bool> = &mut self.planes[layer];
        pl.set(idx, cur != bit);
        proof {
            assert(self@ =~= old(self)@.update(
                layer as int,
                old(self)@[layer as int].update(
                    cell_index(row as int, col as int),
                    old(self)@[layer as int][cell_index(row as int, col as int)] != bit,
                ),
            ));
        }
        bit && cur
    }

    /// Reads one cell of one plane.
    pub fn cell(&self, layer: usize, row: usize, col: usize) -> (r: bool)
        requires
            self.wf(),
            layer < 2,
            row < 64,
            col < 128,
        ensures
            r == self@[layer as int][cell_index(row as int, col as int)],
    {
        proof {
            assert(self@[layer as int] == self.planes@[layer as int]@);
            assert(self@[layer as int].len() == 8192);
            assert(row * 128 + col < 8192);
        }
        self.planes[layer][row * 128 + col]
    }
}

} // verus!
