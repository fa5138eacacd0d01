//! Discs of pixels: which pixels a round brush touches, and what stamping
//! or erasing one does to a canvas.
//!
//! Centres and radii are in sub-pixel units, 256 to the pixel. The centre of
//! pixel `(x, y)` lies at `(256 x + 128, 256 y + 128)`.

use vstd::prelude::*;
use crate::pixel::Rgba;
use crate::pixel::transparent;
use crate::pixel::blend;
use crate::grid::put_pixel;
use crate::grid::lemma_put_pixel;
use crate::view::CanvasView;
use crate::view::lemma_wf_grid;
use crate::view::lemma_wf_layer_grid;

verus! {

/// Sub-pixel units per pixel.
pub const SUBPIXEL: i32 = 256;

/// Distance, on one axis and in sub-pixel units, from a centre `c` to the
/// centre of pixel column or row `p`.
pub open spec fn centre_offset(p: int, c: int) -> int {
    p * 256 + 128 - c
}

/// Whether the centre of pixel `(x, y)` lies within distance `r` of
/// `(cx, cy)`.
pub open spec fn in_disc(x: int, y: int, cx: int, cy: int, r: int) -> bool {
    centre_offset(x, cx) * centre_offset(x, cx) + centre_offset(y, cy) * centre_offset(y, cy) <= r
        * r
}

/// What a round tool does to each pixel that it touches.
pub enum Dab {
    /// Blend a colour in.
    Paint(Rgba),
    /// Clear the drawing layer and show the background again.
    Erase,
}

impl CanvasView {
    /// Clears the drawing-layer pixel under canvas pixel `(x, y)` and shows
    /// the background there.
    pub open spec fn erase_pixel(self, x: int, y: int) -> CanvasView {
        if !self.in_canvas(x, y) {
            self
        } else {
            CanvasView {
                pixels: put_pixel(self.pixels, self.stride, x, y, self.background(x, y)),
                layer: if self.mapped(x, y) {
                    self.put_layer_under(x, y, transparent())
                } else {
                    self.layer
                },
                ..self
            }
        }
    }

    /// One touch of a round tool.
    pub open spec fn dab(self, op: Dab, x: int, y: int) -> CanvasView {
        match op {
            Dab::Paint(c) => self.blend_pixel(x, y, c),
            Dab::Erase => self.erase_pixel(x, y),
        }
    }

    /// The tool applied, from left to right, to the pixels of row `y` in
    /// columns `0..n` whose centre lies in the disc.
    pub open spec fn dab_row(self, op: Dab, cx: int, cy: int, r: int, y: int, n: nat) -> CanvasView
        decreases n,
    {
        if n == 0 {
            self
        } else {
            let prev = self.dab_row(op, cx, cy, r, y, (n - 1) as nat);
            if in_disc(n - 1, y, cx, cy, r) {
                prev.dab(op, n - 1, y)
            } else {
                prev
            }
        }
    }

    /// The tool applied, from top to bottom, to rows `0..m`.
    pub open spec fn dab_rows(self, op: Dab, cx: int, cy: int, r: int, m: nat) -> CanvasView
        decreases m,
    {
        if m == 0 {
            self
        } else {
            self.dab_rows(op, cx, cy, r, (m - 1) as nat).dab_row(
                op,
                cx,
                cy,
                r,
                m - 1,
                self.width as nat,
            )
        }
    }

    /// Stamps a filled disc: the colour is blended into every canvas pixel
    /// whose centre lies within `r` of `(cx, cy)`. Nothing is done for
    /// `r <= 0`.
    pub open spec fn stamp_circle(self, cx: int, cy: int, r: int, c: Rgba) -> CanvasView {
        if r <= 0 {
            self
        } else {
            self.dab_rows(Dab::Paint(c), cx, cy, r, self.height as nat)
        }
    }

    /// Erases a filled disc: every canvas pixel whose centre lies within `r`
    /// of `(cx, cy)` shows the background again, and the drawing layer under
    /// it is cleared. Nothing is done for `r <= 0`.
    pub open spec fn erase_circle(self, cx: int, cy: int, r: int) -> CanvasView {
        if r <= 0 {
            self
        } else {
            CanvasView { dirty: true, ..self.dab_rows(Dab::Erase, cx, cy, r, self.height as nat) }
        }
    }

    /// Two canvases of one shape, image and view: they differ at most in
    /// the two pixel buffers and the dirty flag.
    pub open spec fn same_frame(self, other: CanvasView) -> bool {
        &&& self.width == other.width
        &&& self.height == other.height
        &&& self.stride == other.stride
        &&& self.image_size == other.image_size
        &&& self.image_data == other.image_data
        &&& self.zoom == other.zoom
        &&& self.pan == other.pan
        &&& self.pixels.len() == other.pixels.len()
        &&& self.layer.len() == other.layer.len()
    }
}

/// A pixel in the disc is no further than `r` from the centre on each axis.
pub proof fn lemma_disc_in_box(x: int, y: int, cx: int, cy: int, r: int)
    requires
        r > 0,
        in_disc(x, y, cx, cy, r),
    ensures
        -r <= centre_offset(x, cx) <= r,
        -r <= centre_offset(y, cy) <= r,
{
    let dx = centre_offset(x, cx);
    let dy = centre_offset(y, cy);
    assert(-r <= dx <= r && -r <= dy <= r) by (nonlinear_arith)
        requires
            dx * dx + dy * dy <= r * r,
            r > 0,
    ;
}

/// A touch keeps the canvas well-formed and its frame.
pub proof fn lemma_dab_frame(v: CanvasView, op: Dab, x: int, y: int)
    requires
        v.wf(),
    ensures
        v.dab(op, x, y).wf(),
        v.dab(op, x, y).same_frame(v),
{
    if v.in_canvas(x, y) {
        lemma_wf_grid(v);
        if v.mapped(x, y) {
            lemma_wf_layer_grid(v);
            let c = match op {
                Dab::Paint(c) => blend(c, v.layer_under(x, y)),
                Dab::Erase => transparent(),
            };
            lemma_put_pixel(
                v.layer,
                4 * v.image_width(),
                v.image_width(),
                v.image_height(),
                v.image_x(x),
                v.image_y(y),
                c,
            );
        }
        let c = match op {
            Dab::Paint(c) => blend(c, v.pixel(x, y)),
            Dab::Erase => v.background(x, y),
        };
        lemma_put_pixel(v.pixels, v.stride, v.width, v.height, x, y, c);
    }
}

/// A row of touches keeps the canvas well-formed and its frame.
pub proof fn lemma_dab_row_frame(v: CanvasView, op: Dab, cx: int, cy: int, r: int, y: int, n: nat)
    requires
        v.wf(),
    ensures
        v.dab_row(op, cx, cy, r, y, n).wf(),
        v.dab_row(op, cx, cy, r, y, n).same_frame(v),
    decreases n,
{
    if n > 0 {
        lemma_dab_row_frame(v, op, cx, cy, r, y, (n - 1) as nat);
        lemma_dab_frame(v.dab_row(op, cx, cy, r, y, (n - 1) as nat), op, n - 1, y);
    }
}

/// Rows of touches keep the canvas well-formed and its frame.
pub proof fn lemma_dab_rows_frame(v: CanvasView, op: Dab, cx: int, cy: int, r: int, m: nat)
    requires
        v.wf(),
    ensures
        v.dab_rows(op, cx, cy, r, m).wf(),
        v.dab_rows(op, cx, cy, r, m).same_frame(v),
    decreases m,
{
    if m > 0 {
        lemma_dab_rows_frame(v, op, cx, cy, r, (m - 1) as nat);
        lemma_dab_row_frame(
            v.dab_rows(op, cx, cy, r, (m - 1) as nat),
            op,
            cx,
            cy,
            r,
            m - 1,
            v.width as nat,
        );
    }
}

/// Columns without a pixel in the disc leave a row as it is.
pub proof fn lemma_dab_row_skip(
    v: CanvasView,
    op: Dab,
    cx: int,
    cy: int,
    r: int,
    y: int,
    a: nat,
    b: nat,
)
    requires
        a <= b,
        forall|x: int| a <= x < b ==> !in_disc(x, y, cx, cy, r),
    ensures
        v.dab_row(op, cx, cy, r, y, b) == v.dab_row(op, cx, cy, r, y, a),
    decreases b,
{
    if a < b {
        lemma_dab_row_skip(v, op, cx, cy, r, y, a, (b - 1) as nat);
        assert(!in_disc(b - 1, y, cx, cy, r));
    }
}

/// Rows without a pixel in the disc leave the canvas as it is.
pub proof fn lemma_dab_rows_skip(v: CanvasView, op: Dab, cx: int, cy: int, r: int, a: nat, b: nat)
    requires
        a <= b,
        0 <= v.width,
        forall|x: int, y: int| a <= y < b && 0 <= x < v.width ==> !in_disc(x, y, cx, cy, r),
    ensures
        v.dab_rows(op, cx, cy, r, b) == v.dab_rows(op, cx, cy, r, a),
    decreases b,
{
    if a < b {
        lemma_dab_rows_skip(v, op, cx, cy, r, a, (b - 1) as nat);
        let prev = v.dab_rows(op, cx, cy, r, (b - 1) as nat);
        lemma_dab_row_skip(prev, op, cx, cy, r, b - 1, 0, v.width as nat);
        assert(prev.dab_row(op, cx, cy, r, b - 1, 0) == prev);
        assert(v.dab_rows(op, cx, cy, r, b) == prev.dab_row(
            op,
            cx,
            cy,
            r,
            b - 1,
            v.width as nat,
        ));
    }
}

/// What a row of stamps leaves at a composite pixel.
pub proof fn lemma_paint_row_pixel(
    v: CanvasView,
    c: Rgba,
    cx: int,
    cy: int,
    r: int,
    row: int,
    n: nat,
    x: int,
    y: int,
)
    requires
        v.wf(),
        v.in_canvas(x, y),
        n <= v.width,
    ensures
        v.dab_row(Dab::Paint(c), cx, cy, r, row, n).pixel(x, y) == (if y == row && x < n && in_disc(
            x,
            y,
            cx,
            cy,
            r,
        ) {
            blend(c, v.pixel(x, y))
        } else {
            v.pixel(x, y)
        }),
    decreases n,
{
    if n > 0 {
        let prev = v.dab_row(Dab::Paint(c), cx, cy, r, row, (n - 1) as nat);
        lemma_paint_row_pixel(v, c, cx, cy, r, row, (n - 1) as nat, x, y);
        lemma_dab_row_frame(v, Dab::Paint(c), cx, cy, r, row, (n - 1) as nat);
        if in_disc(n - 1, row, cx, cy, r) && prev.in_canvas(n - 1, row) {
            lemma_wf_grid(prev);
            lemma_paint_row_pixel(v, c, cx, cy, r, row, (n - 1) as nat, n - 1, row);
            lemma_put_pixel(
                prev.pixels,
                prev.stride,
                prev.width,
                prev.height,
                n - 1,
                row,
                blend(c, prev.pixel(n - 1, row)),
            );
        }
    }
}

/// What rows of stamps leave at a composite pixel.
pub proof fn lemma_paint_rows_pixel(
    v: CanvasView,
    c: Rgba,
    cx: int,
    cy: int,
    r: int,
    m: nat,
    x: int,
    y: int,
)
    requires
        v.wf(),
        v.in_canvas(x, y),
        m <= v.height,
    ensures
        v.dab_rows(Dab::Paint(c), cx, cy, r, m).pixel(x, y) == (if y < m && in_disc(
            x,
            y,
            cx,
            cy,
            r,
        ) {
            blend(c, v.pixel(x, y))
        } else {
            v.pixel(x, y)
        }),
    decreases m,
{
    if m > 0 {
        let prev = v.dab_rows(Dab::Paint(c), cx, cy, r, (m - 1) as nat);
        lemma_paint_rows_pixel(v, c, cx, cy, r, (m - 1) as nat, x, y);
        lemma_dab_rows_frame(v, Dab::Paint(c), cx, cy, r, (m - 1) as nat);
        lemma_paint_row_pixel(prev, c, cx, cy, r, m - 1, v.width as nat, x, y);
    }
}

/// A stamp touches exactly the canvas pixels whose centre lies within the
/// radius of the stamp's centre: the colour is blended into each of them
/// once, and every other composite pixel stays as it is. A stamp of radius
/// 0 or less changes nothing.
pub proof fn lemma_stamp_coverage(v: CanvasView, cx: int, cy: int, r: int, c: Rgba, x: int, y: int)
    requires
        v.wf(),
        v.in_canvas(x, y),
    ensures
        v.stamp_circle(cx, cy, r, c).pixel(x, y) == (if r > 0 && in_disc(x, y, cx, cy, r) {
            blend(c, v.pixel(x, y))
        } else {
            v.pixel(x, y)
        }),
        r <= 0 ==> v.stamp_circle(cx, cy, r, c) == v,
{
    if r > 0 {
        lemma_paint_rows_pixel(v, c, cx, cy, r, v.height as nat, x, y);
    }
}

} // verus!
