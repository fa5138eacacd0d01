//! Round tools on a canvas: stamping and erasing discs.

use vstd::prelude::*;
use crate::pixel::rgba;
use crate::grid::store_pixel;
use crate::grid::lemma_offset_bounds;
use crate::view::lemma_wf_grid;
use crate::canvas::Canvas;
use crate::canvas::Pass;
use crate::disc::Dab;
use crate::disc::in_disc;
use crate::disc::lemma_disc_in_box;
use crate::disc::lemma_dab_frame;
use crate::disc::lemma_dab_row_frame;
use crate::disc::lemma_dab_rows_frame;
use crate::disc::lemma_dab_row_skip;
use crate::disc::lemma_dab_rows_skip;

verus! {

/// A round tool, as the painting loop takes it.
pub enum Tip {
    Paint([u8; 4]),
    Erase,
}

impl Tip {
    pub open spec fn dab(self) -> Dab {
        match self {
            Tip::Paint(c) => Dab::Paint(rgba(c)),
            Tip::Erase => Dab::Erase,
        }
    }
}

/// Whether the centre of pixel `(x, y)` lies within `r` of `(cx, cy)`.
pub fn disc_holds(x: u32, y: u32, cx: i32, cy: i32, r: i32) -> (inside: bool)
    ensures
        inside == in_disc(x as int, y as int, cx as int, cy as int, r as int),
{
    let dx: i128 = x as i128 * 256 + 128 - cx as i128;
    let dy: i128 = y as i128 * 256 + 128 - cy as i128;
    let rr: i128 = r as i128;
    assert(0 <= dx * dx <= 0x400_0000_0000 * 0x400_0000_0000) by (nonlinear_arith)
        requires
            -0x400_0000_0000 <= dx <= 0x400_0000_0000,
    ;
    assert(0 <= dy * dy <= 0x400_0000_0000 * 0x400_0000_0000) by (nonlinear_arith)
        requires
            -0x400_0000_0000 <= dy <= 0x400_0000_0000,
    ;
    assert(0 <= rr * rr <= 0x1_0000_0000 * 0x1_0000_0000) by (nonlinear_arith)
        requires
            -0x1_0000_0000 <= rr <= 0x1_0000_0000,
    ;
    dx * dx + dy * dy <= rr * rr
}

/// First pixel column (or row) that a disc can reach, not below 0: the floor
/// of `lo / 256` for the disc's least coordinate `lo`.
fn box_start(lo: i64) -> (first: u32)
    requires
        -0x1_0000_0000 <= lo <= 0x1_0000_0000,
    ensures
        first == box_start_spec(lo as int),
{
    if lo <= 0 {
        0
    } else {
        (lo / 256) as u32
    }
}

/// One past the last pixel column (or row) that a disc can reach, not above
/// `limit`.
fn box_end(hi: i64, limit: u32) -> (end: u32)
    requires
        0 <= hi <= 0x1_0000_0000,
    ensures
        end == box_end_spec(hi as int, limit as int),
        end <= limit,
{
    let reach: i64 = (hi + 255) / 256 + 1;
    if reach < limit as i64 {
        reach as u32
    } else {
        limit
    }
}

/// The column (or row) of the pixel that holds the coordinate `lo`, given
/// in sub-pixel units, and 0 for a coordinate left of (or above) the
/// canvas: the bounding box of a disc begins there.
pub open spec fn box_start_spec(lo: int) -> int {
    if lo <= 0 {
        0
    } else {
        lo / 256
    }
}

/// One past the column (or row) at which the coordinate `hi`, rounded up to
/// whole pixels, lies, and `limit` at most: the bounding box of a disc ends
/// before it.
pub open spec fn box_end_spec(hi: int, limit: int) -> int {
    if (hi + 255) / 256 + 1 < limit {
        (hi + 255) / 256 + 1
    } else {
        limit
    }
}

impl Canvas {
    /// Clears the drawing-layer pixel under canvas pixel `(x, y)` and shows
    /// the background there.
    fn erase_pixel(&mut self, x: u32, y: u32)
        requires
            old(self).wf(),
            old(self)@.in_canvas(x as int, y as int),
        ensures
            final(self).wf(),
            final(self)@ == old(self)@.erase_pixel(x as int, y as int),
    {
        proof {
            lemma_dab_frame(self@, Dab::Erase, x as int, y as int);
        }
        let behind: [u8; 4] = self.pass_pixel(&Pass::Backdrop, x, y);
        match self.canvas_to_image(x, y) {
            Some((ix, iy)) => {
                let row: usize = self.layer_stride();
                proof {
                    lemma_offset_bounds(
                        row as int,
                        self@.image_width(),
                        self@.image_height(),
                        ix as int,
                        iy as int,
                    );
                }
                store_pixel(&mut self.drawing_layer, row, ix as usize, iy as usize, [0, 0, 0, 0]);
            },
            None => {},
        }
        proof {
            lemma_wf_grid(self@);
            lemma_offset_bounds(
                self.stride as int,
                self.width as int,
                self.height as int,
                x as int,
                y as int,
            );
        }
        store_pixel(&mut self.pixels, self.stride, x as usize, y as usize, behind);
    }

    /// Applies a round tool to every canvas pixel whose centre lies within
    /// `radius` of `(cx, cy)`, visiting only the bounding box of the disc.
    fn dab_disc(&mut self, tip: &Tip, cx: i32, cy: i32, radius: i32)
        requires
            old(self).wf(),
            radius > 0,
        ensures
            final(self).wf(),
            final(self)@ == old(self)@.dab_rows(
                tip.dab(),
                cx as int,
                cy as int,
                radius as int,
                old(self).height as nat,
            ),
    {
        let ghost before = self@;
        let ghost op = tip.dab();
        let width: u32 = self.width;
        let height: u32 = self.height;
        let hi_x: i64 = cx as i64 + radius as i64;
        let hi_y: i64 = cy as i64 + radius as i64;
        if hi_x < 0 || hi_y < 0 {
            proof {
                assert forall|x: int, y: int| 0 <= y < height && 0 <= x < width implies !in_disc(
                    x,
                    y,
                    cx as int,
                    cy as int,
                    radius as int,
                ) by {
                    if in_disc(x, y, cx as int, cy as int, radius as int) {
                        lemma_disc_in_box(x, y, cx as int, cy as int, radius as int);
                    }
                }
                lemma_dab_rows_skip(
                    before,
                    op,
                    cx as int,
                    cy as int,
                    radius as int,
                    0,
                    height as nat,
                );
            }
            return;
        }
        let min_x: u32 = box_start(cx as i64 - radius as i64);
        let min_y: u32 = box_start(cy as i64 - radius as i64);
        let end_x: u32 = box_end(hi_x, width);
        let end_y: u32 = box_end(hi_y, height);
        if min_y >= end_y {
            proof {
                assert forall|x: int, y: int| 0 <= y < height && 0 <= x < width implies !in_disc(
                    x,
                    y,
                    cx as int,
                    cy as int,
                    radius as int,
                ) by {
                    if in_disc(x, y, cx as int, cy as int, radius as int) {
                        lemma_disc_in_box(x, y, cx as int, cy as int, radius as int);
                    }
                }
                lemma_dab_rows_skip(
                    before,
                    op,
                    cx as int,
                    cy as int,
                    radius as int,
                    0,
                    height as nat,
                );
            }
            return;
        }
        proof {
            assert forall|x: int, y: int| 0 <= y < min_y && 0 <= x < width implies !in_disc(
                x,
                y,
                cx as int,
                cy as int,
                radius as int,
            ) by {
                if in_disc(x, y, cx as int, cy as int, radius as int) {
                    lemma_disc_in_box(x, y, cx as int, cy as int, radius as int);
                }
            }
            lemma_dab_rows_skip(before, op, cx as int, cy as int, radius as int, 0, min_y as nat);
        }
        let mut y: u32 = min_y;
        while y < end_y
            invariant
                min_y <= y <= end_y <= height,
                radius > 0,
                before.wf(),
                op == tip.dab(),
                width == before.width,
                height == before.height,
                self.wf(),
                self@ == before.dab_rows(op, cx as int, cy as int, radius as int, y as nat),
                min_x * 256 <= cx - radius || min_x == 0,
                cx + radius < end_x * 256 || end_x == width,
                cy + radius < end_y * 256 || end_y == height,
                end_x <= width,
            decreases end_y - y,
        {
            let ghost row_start = self@;
            proof {
                lemma_dab_rows_frame(before, op, cx as int, cy as int, radius as int, y as nat);
                assert forall|x: int| 0 <= x < min_x implies !in_disc(
                    x,
                    y as int,
                    cx as int,
                    cy as int,
                    radius as int,
                ) by {
                    if in_disc(x, y as int, cx as int, cy as int, radius as int) {
                        lemma_disc_in_box(x, y as int, cx as int, cy as int, radius as int);
                    }
                }
                if min_x <= width {
                    lemma_dab_row_skip(
                        row_start,
                        op,
                        cx as int,
                        cy as int,
                        radius as int,
                        y as int,
                        0,
                        min_x as nat,
                    );
                }
            }
            let mut x: u32 = min_x;
            if min_x < end_x {
                while x < end_x
                    invariant
                        min_x <= x <= end_x <= width,
                        y < end_y <= height,
                        radius > 0,
                        before.wf(),
                        row_start.wf(),
                        row_start.same_frame(before),
                        op == tip.dab(),
                        width == before.width,
                        height == before.height,
                        self.wf(),
                        self@ == row_start.dab_row(
                            op,
                            cx as int,
                            cy as int,
                            radius as int,
                            y as int,
                            x as nat,
                        ),
                    decreases end_x - x,
                {
                    proof {
                        lemma_dab_row_frame(
                            row_start,
                            op,
                            cx as int,
                            cy as int,
                            radius as int,
                            y as int,
                            x as nat,
                        );
                    }
                    if disc_holds(x, y, cx, cy, radius) {
                        match tip {
                            Tip::Paint(color) => {
                                self.blend_pixel(x, y, *color);
                            },
                            Tip::Erase => {
                                self.erase_pixel(x, y);
                            },
                        }
                    }
                    x += 1;
                }
            } else {
                proof {
                    // The box is empty on this axis: no column is in reach.
                    assert forall|p: int| 0 <= p < width implies !in_disc(
                        p,
                        y as int,
                        cx as int,
                        cy as int,
                        radius as int,
                    ) by {
                        if in_disc(p, y as int, cx as int, cy as int, radius as int) {
                            lemma_disc_in_box(p, y as int, cx as int, cy as int, radius as int);
                        }
                    }
                    lemma_dab_row_skip(
                        row_start,
                        op,
                        cx as int,
                        cy as int,
                        radius as int,
                        y as int,
                        0,
                        width as nat,
                    );
                }
            }
            proof {
                if min_x < end_x {
                    assert forall|p: int| end_x <= p < width implies !in_disc(
                        p,
                        y as int,
                        cx as int,
                        cy as int,
                        radius as int,
                    ) by {
                        if in_disc(p, y as int, cx as int, cy as int, radius as int) {
                            lemma_disc_in_box(p, y as int, cx as int, cy as int, radius as int);
                        }
                    }
                    lemma_dab_row_skip(
                        row_start,
                        op,
                        cx as int,
                        cy as int,
                        radius as int,
                        y as int,
                        end_x as nat,
                        width as nat,
                    );
                }
                assert(self@ == row_start.dab_row(
                    op,
                    cx as int,
                    cy as int,
                    radius as int,
                    y as int,
                    width as nat,
                ));
            }
            y += 1;
        }
        proof {
            assert forall|x: int, y2: int| end_y <= y2 < height && 0 <= x < width implies !in_disc(
                x,
                y2,
                cx as int,
                cy as int,
                radius as int,
            ) by {
                if in_disc(x, y2, cx as int, cy as int, radius as int) {
                    lemma_disc_in_box(x, y2, cx as int, cy as int, radius as int);
                }
            }
            lemma_dab_rows_skip(
                before,
                op,
                cx as int,
                cy as int,
                radius as int,
                end_y as nat,
                height as nat,
            );
        }
    }

    /// Stamps a filled disc of a colour at `(cx, cy)`, given like `radius`
    /// in sub-pixel units. The colour is blended into every canvas pixel
    /// whose centre lies within `radius` of the point, and into the drawing
    /// layer under it. Does nothing for `radius <= 0`.
    pub fn stamp_circle(&mut self, cx: i32, cy: i32, radius: i32, color: [u8; 4])
        requires
            old(self).wf(),
        ensures
            final(self).wf(),
            final(self)@ == old(self)@.stamp_circle(
                cx as int,
                cy as int,
                radius as int,
                rgba(color),
            ),
    {
        if radius <= 0 {
            return;
        }
        self.dab_disc(&Tip::Paint(color), cx, cy, radius);
    }

    /// Erases a filled disc at `(cx, cy)`, given like `radius` in sub-pixel
    /// units: every canvas pixel whose centre lies within `radius` of the
    /// point shows the background again, and the drawing layer under it is
    /// cleared. Does nothing for `radius <= 0`.
    pub fn erase_circle(&mut self, cx: i32, cy: i32, radius: i32)
        requires
            old(self).wf(),
        ensures
            final(self).wf(),
            final(self)@ == old(self)@.erase_circle(cx as int, cy as int, radius as int),
    {
        if radius <= 0 {
            return;
        }
        self.dab_disc(&Tip::Erase, cx, cy, radius);
        self.dirty = true;
    }
}

} // verus!
