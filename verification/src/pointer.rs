//! What the pointer does on the canvas: where it is, erasing along its way,
//! and dragging what was drawn.

use vstd::prelude::*;
use crate::pixel::floor_quotient;
use crate::view::CanvasView;
use crate::view::Zoom;
use crate::canvas::Canvas;
use crate::brush::count_of;
use crate::brush::count_steps;
use crate::brush::stroke_centre;
use crate::brush::lemma_between;
use crate::input::clamp_spec;
use crate::panel::PANEL_WIDTH;

verus! {

/// The largest coordinate, in sub-pixel units, of a pointer on a canvas
/// side of `size` pixels: that of the last pixel, as far as 32 bits reach.
pub open spec fn last_coord(size: int) -> int {
    clamp_spec(256 * (size - 1), 0, i32::MAX as int)
}

/// A window coordinate, in sub-pixel units, as a canvas coordinate: scaled
/// from the window's side to the canvas's, rounded down, and held to the
/// canvas.
pub open spec fn to_canvas_axis(pos: int, window: int, size: int) -> int {
    clamp_spec((pos * size) / window, 0, last_coord(size))
}

/// One axis of `window_to_canvas`.
fn canvas_axis(pos: i64, window: u32, size: u32) -> (at: i32)
    requires
        window > 0,
    ensures
        at == to_canvas_axis(pos as int, window as int, size as int),
{
    let last: i64 = if size == 0 {
        0
    } else if 256 * (size as i64 - 1) > i32::MAX as i64 {
        i32::MAX as i64
    } else {
        256 * (size as i64 - 1)
    };
    if pos <= 0 {
        proof {
            assert(pos * size <= 0) by (nonlinear_arith)
                requires
                    pos <= 0,
                    size >= 0,
            ;
            crate::pixel::lemma_floor_magnitude(pos * size, window as int);
        }
        return 0;
    }
    assert(0 <= pos * size <= 0x7fff_ffff_ffff_ffff * 0xffff_ffff) by (nonlinear_arith)
        requires
            0 < pos <= 0x7fff_ffff_ffff_ffff,
            0 <= size <= 0xffff_ffff,
    ;
    let scaled: u128 = (pos as u128 * size as u128) / window as u128;
    if scaled > last as u128 {
        last as i32
    } else {
        scaled as i32
    }
}

/// Where on the canvas a pointer position in the window lies, both in
/// sub-pixel units: scaled by the ratio of the two sizes and held to the
/// canvas. `None` for a window without area.
pub fn window_to_canvas(pos: (i64, i64), window_size: (u32, u32), canvas: &Canvas) -> (at: Option<
    (i32, i32),
>)
    ensures
        at == (if window_size.0 == 0 || window_size.1 == 0 {
            None
        } else {
            Some(
                (
                    to_canvas_axis(pos.0 as int, window_size.0 as int, canvas.width as int) as i32,
                    to_canvas_axis(pos.1 as int, window_size.1 as int, canvas.height as int) as i32,
                ),
            )
        }),
{
    if window_size.0 == 0 || window_size.1 == 0 {
        return None;
    }
    Some(
        (
            canvas_axis(pos.0, window_size.0, canvas.width),
            canvas_axis(pos.1, window_size.1, canvas.height),
        ),
    )
}

/// The quotient `a / b` rounded toward zero.
pub open spec fn toward_zero(a: int, b: int) -> int {
    if a >= 0 {
        a / b
    } else {
        -((-a) / b)
    }
}

/// How far, in image pixels, a drag of `delta` sub-pixel units on the
/// canvas moves what was drawn: `delta / 256 / zoom`, rounded toward zero,
/// as far as 32 bits reach.
pub open spec fn drag_pixels(delta: int, zoom: Zoom) -> int {
    clamp_spec(
        toward_zero(delta * zoom.den, 256 * zoom.num),
        i32::MIN as int,
        i32::MAX as int,
    )
}

/// One axis of `drag_layer`.
fn drag_axis(from: i32, to: i32, zoom: Zoom) -> (moved: i32)
    requires
        zoom.num > 0,
    ensures
        moved == drag_pixels(to - from, zoom),
{
    let delta: i64 = to as i64 - from as i64;
    let size: u64 = if delta < 0 {
        (-delta) as u64
    } else {
        delta as u64
    };
    assert(0 <= size * zoom.den <= 0xffff_ffff * 0xffff_ffff_ffff_ffff) by (nonlinear_arith)
        requires
            0 <= size <= 0xffff_ffff,
            0 <= zoom.den <= 0xffff_ffff_ffff_ffff,
    ;
    let q: u128 = (size as u128 * zoom.den as u128) / (256 * zoom.num as u128);
    let held: i64 = if q > i32::MAX as u128 + 1 {
        i32::MAX as i64 + 1
    } else {
        q as i64
    };
    proof {
        assert(-delta * zoom.den == (-delta) * zoom.den) by (nonlinear_arith);
        if delta < 0 {
            assert(-(delta * zoom.den) == size * zoom.den) by (nonlinear_arith)
                requires
                    size == -delta,
            ;
            assert(delta * zoom.den <= 0) by (nonlinear_arith)
                requires
                    delta < 0,
                    zoom.den >= 0,
            ;
            if delta * zoom.den == 0 {
                assert(size * zoom.den == 0);
            }
        } else {
            assert(delta * zoom.den >= 0) by (nonlinear_arith)
                requires
                    delta >= 0,
                    zoom.den >= 0,
            ;
        }
    }
    if delta < 0 {
        (-held) as i32
    } else if held > i32::MAX as i64 {
        i32::MAX
    } else {
        held as i32
    }
}

impl CanvasView {
    /// The shift, in image pixels, of a drag from `from` to `to`.
    pub open spec fn drag_shift(self, from: (int, int), to: (int, int)) -> (int, int) {
        (drag_pixels(to.0 - from.0, self.zoom), drag_pixels(to.1 - from.1, self.zoom))
    }

    /// Moves what was drawn along with a drag of the pointer; a drag of
    /// less than an image pixel does nothing.
    pub open spec fn drag_layer(self, from: (int, int), to: (int, int)) -> CanvasView {
        let shift = self.drag_shift(from, to);
        if shift.0 != 0 || shift.1 != 0 {
            self.move_layer(shift.0 as i32, shift.1 as i32)
        } else {
            self
        }
    }

    /// The eraser at a pointer position: it erases to the left of the
    /// pointer, by the width of the panel, and not left of the canvas.
    pub open spec fn erase_at(self, pos: (int, int), r: int) -> CanvasView {
        self.erase_circle(
            if pos.0 - 256 * PANEL_WIDTH < 0 {
                0
            } else {
                pos.0 - 256 * PANEL_WIDTH
            },
            pos.1,
            r,
        )
    }

    /// The first `k` erasures of a stroke of the eraser of `n` steps.
    pub open spec fn erasures(self, from: (int, int), to: (int, int), n: int, r: int, k: nat) -> CanvasView
        decreases k,
    {
        if k == 0 {
            self
        } else {
            self.erasures(from, to, n, r, (k - 1) as nat).erase_at(
                stroke_centre(from, to, n, k - 1),
                r,
            )
        }
    }

    /// The eraser moved to `to`: an erasure there and, if the pointer came
    /// from somewhere, erasures at evenly spaced points of its way, the
    /// ends included, no two further apart than half the radius.
    pub open spec fn erase_stroke(self, from: Option<(int, int)>, to: (int, int), r: int) -> CanvasView {
        match from {
            Some(start) => if r > 0 {
                let n = erase_steps(to.0 - start.0, to.1 - start.1, r);
                self.erase_at(to, r).erasures(start, to, n, r, (n + 1) as nat)
            } else {
                self
            },
            None => self.erase_at(to, r),
        }
    }
}

/// Number of steps of a stroke of the eraser along `(dx, dy)`: the length
/// in units of half the radius, rounded up, at least 1, and as far as 31
/// bits reach.
pub open spec fn erase_steps(dx: int, dy: int, r: int) -> int {
    clamp_spec(count_of(r * r, 4 * (dx * dx + dy * dy)), 1, i32::MAX as int)
}

/// Number of steps of a stroke of the eraser.
fn erase_steps_along(dx: i64, dy: i64, r: i32) -> (n: u32)
    requires
        r > 0,
        -0x1_0000_0000 <= dx <= 0x1_0000_0000,
        -0x1_0000_0000 <= dy <= 0x1_0000_0000,
    ensures
        n == erase_steps(dx as int, dy as int, r as int),
        1 <= n <= i32::MAX,
{
    assert(0 <= dx * dx <= 0x1_0000_0000 * 0x1_0000_0000) by (nonlinear_arith)
        requires
            -0x1_0000_0000 <= dx <= 0x1_0000_0000,
    ;
    assert(0 <= dy * dy <= 0x1_0000_0000 * 0x1_0000_0000) by (nonlinear_arith)
        requires
            -0x1_0000_0000 <= dy <= 0x1_0000_0000,
    ;
    assert(1 <= r * r <= 0x7fff_ffff * 0x7fff_ffff) by (nonlinear_arith)
        requires
            1 <= r <= 0x7fff_ffff,
    ;
    let d2: u128 = 4 * ((dx as i128 * dx as i128 + dy as i128 * dy as i128) as u128);
    let step2: u64 = (r as u64) * (r as u64);
    let n: u64 = count_steps(step2, d2);
    if n > i32::MAX as u64 {
        i32::MAX as u32
    } else {
        n as u32
    }
}

impl Canvas {
    /// Moves what was drawn along with a drag of the pointer from `from` to
    /// `to`, both in sub-pixel units.
    pub fn drag_layer(&mut self, from: (i32, i32), to: (i32, i32))
        requires
            old(self).wf(),
        ensures
            final(self).wf(),
            final(self)@ == old(self)@.drag_layer(
                (from.0 as int, from.1 as int),
                (to.0 as int, to.1 as int),
            ),
    {
        let dx: i32 = drag_axis(from.0, to.0, self.zoom_scale);
        let dy: i32 = drag_axis(from.1, to.1, self.zoom_scale);
        if dx != 0 || dy != 0 {
            self.move_layer(dx, dy);
        }
    }

    /// The eraser at a pointer position.
    fn erase_at(&mut self, pos: (i32, i32), radius: i32)
        requires
            old(self).wf(),
        ensures
            final(self).wf(),
            final(self)@ == old(self)@.erase_at((pos.0 as int, pos.1 as int), radius as int),
    {
        let shifted: i64 = pos.0 as i64 - 256 * PANEL_WIDTH as i64;
        let x: i32 = if shifted < 0 {
            0
        } else {
            shifted as i32
        };
        self.erase_circle(x, pos.1, radius);
    }

    /// Moves the eraser to `to`, from `from` if the pointer was seen
    /// before; positions and radius are in sub-pixel units.
    pub fn erase_stroke(&mut self, from: Option<(i32, i32)>, to: (i32, i32), radius: i32)
        requires
            old(self).wf(),
        ensures
            final(self).wf(),
            final(self)@ == old(self)@.erase_stroke(
                match from {
                    Some(start) => Some((start.0 as int, start.1 as int)),
                    None => None,
                },
                (to.0 as int, to.1 as int),
                radius as int,
            ),
    {
        if radius <= 0 {
            return;
        }
        self.erase_at(to, radius);
        match from {
            Some(start) => {
                let ghost first = self@;
                let ghost a = (start.0 as int, start.1 as int);
                let ghost b = (to.0 as int, to.1 as int);
                let dx: i64 = to.0 as i64 - start.0 as i64;
                let dy: i64 = to.1 as i64 - start.1 as i64;
                let n: u32 = erase_steps_along(dx, dy, radius);
                let mut i: u32 = 0;
                while i <= n
                    invariant
                        i <= n + 1,
                        1 <= n <= i32::MAX,
                        dx == to.0 - start.0,
                        dy == to.1 - start.1,
                        a == (start.0 as int, start.1 as int),
                        b == (to.0 as int, to.1 as int),
                        self.wf(),
                        self@ == first.erasures(a, b, n as int, radius as int, i as nat),
                    decreases n + 1 - i,
                {
                    proof {
                        lemma_between(dx as int, i as int, n as int);
                        lemma_between(dy as int, i as int, n as int);
                        assert(-0x8000_0000_0000_0000 < dx * i < 0x8000_0000_0000_0000)
                            by (nonlinear_arith)
                            requires
                                -0x1_0000_0000 <= dx <= 0x1_0000_0000,
                                0 <= i <= 0x7fff_ffff,
                        ;
                        assert(-0x8000_0000_0000_0000 < dy * i < 0x8000_0000_0000_0000)
                            by (nonlinear_arith)
                            requires
                                -0x1_0000_0000 <= dy <= 0x1_0000_0000,
                                0 <= i <= 0x7fff_ffff,
                        ;
                    }
                    let x: i64 = start.0 as i64 + floor_quotient(dx * i as i64, n as i64);
                    let y: i64 = start.1 as i64 + floor_quotient(dy * i as i64, n as i64);
                    self.erase_at((x as i32, y as i32), radius);
                    i += 1;
                }
            },
            None => {},
        }
    }
}

} // verus!
