//! Operations on the whole drawing layer: moving it, and the filters.
//!
//! Each of them computes every pixel of the new layer from the layer as it
//! was, and then rebuilds the composite buffer. The filters leave pixels
//! with alpha 0, which nobody has drawn on, as they are.

use vstd::prelude::*;
use crate::pixel::Rgba;
use crate::pixel::rgba;
use crate::pixel::channel;
use crate::pixel::transparent;
use crate::pixel::invert;
use crate::pixel::grayscale;
use crate::pixel::adjust;
use crate::pixel::luminosity;
use crate::pixel::adjust_channel;
use crate::grid::pixel_at;
use crate::grid::grid_map;
use crate::grid::grid_partial;
use crate::grid::in_grid;
use crate::grid::is_grid;
use crate::grid::load_pixel;
use crate::grid::store_pixel;
use crate::grid::lemma_offset_bounds;
use crate::grid::lemma_grid_partial_step;
use crate::grid::lemma_grid_partial_skip;
use crate::grid::lemma_grid_partial_done;
use crate::view::CanvasView;
use crate::view::tight_len;
use crate::view::lemma_wf_layer_grid;
use crate::canvas::Canvas;

verus! {

/// An operation on the whole drawing layer.
pub enum Filter {
    /// Translate by `(dx, dy)` image pixels.
    Move(i32, i32),
    Invert,
    Grayscale,
    /// Brightness, then contrast.
    Adjust(i32, i32),
    /// Box blur of the given radius.
    Blur(u32),
}

/// Sum of one channel over `n` pixels of row `y`, from column `x0` on.
pub open spec fn row_sum(buf: Seq<u8>, stride: int, y: int, x0: int, n: nat, ch: int) -> int
    decreases n,
{
    if n == 0 {
        0
    } else {
        row_sum(buf, stride, y, x0, (n - 1) as nat, ch) + channel(
            pixel_at(buf, stride, x0 + n - 1, y),
            ch,
        )
    }
}

/// Sum of one channel over a box of `nx` by `ny` pixels at `(x0, y0)`.
pub open spec fn box_sum(
    buf: Seq<u8>,
    stride: int,
    x0: int,
    nx: nat,
    y0: int,
    ny: nat,
    ch: int,
) -> int
    decreases ny,
{
    if ny == 0 {
        0
    } else {
        box_sum(buf, stride, x0, nx, y0, (ny - 1) as nat, ch) + row_sum(
            buf,
            stride,
            y0 + ny - 1,
            x0,
            nx,
            ch,
        )
    }
}

/// First column (or row) of the blur window around `p`.
pub open spec fn window_start(p: int, radius: int) -> int {
    if p - radius < 0 {
        0
    } else {
        p - radius
    }
}

/// Last column (or row) of the blur window around `p`, in an image of
/// `limit` columns (or rows).
pub open spec fn window_end(p: int, radius: int, limit: int) -> int {
    if p + radius > limit - 1 {
        limit - 1
    } else {
        p + radius
    }
}

/// Mean of one channel over the blur window of `(x, y)`, rounded down.
pub open spec fn window_mean(
    layer: Seq<u8>,
    w: int,
    h: int,
    radius: int,
    x: int,
    y: int,
    ch: int,
) -> u8 {
    let x0 = window_start(x, radius);
    let y0 = window_start(y, radius);
    let nx = window_end(x, radius, w) - x0 + 1;
    let ny = window_end(y, radius, h) - y0 + 1;
    (box_sum(layer, 4 * w, x0, nx as nat, y0, ny as nat, ch) / (nx * ny)) as u8
}

/// The box blur of pixel `(x, y)`: the mean of each channel, alpha too,
/// over the window of the given radius, clipped to the image.
pub open spec fn blurred(layer: Seq<u8>, w: int, h: int, radius: int, x: int, y: int) -> Rgba {
    Rgba {
        r: window_mean(layer, w, h, radius, x, y, 0),
        g: window_mean(layer, w, h, radius, x, y, 1),
        b: window_mean(layer, w, h, radius, x, y, 2),
        a: window_mean(layer, w, h, radius, x, y, 3),
    }
}

/// Pixel `(x, y)` of the layer moved by `(dx, dy)`: what was at
/// `(x - dx, y - dy)`, or nothing if that lies outside the image.
pub open spec fn moved(layer: Seq<u8>, w: int, h: int, dx: int, dy: int, x: int, y: int) -> Rgba {
    if in_grid(w, h, x - dx, y - dy) {
        pixel_at(layer, 4 * w, x - dx, y - dy)
    } else {
        transparent()
    }
}

/// What an operation leaves at pixel `(x, y)` of a layer of `w` by `h`
/// pixels.
pub open spec fn filter_value(layer: Seq<u8>, w: int, h: int, op: Filter, x: int, y: int) -> Rgba {
    let p = pixel_at(layer, 4 * w, x, y);
    match op {
        Filter::Move(dx, dy) => moved(layer, w, h, dx as int, dy as int, x, y),
        Filter::Invert => if p.a > 0 {
            invert(p)
        } else {
            p
        },
        Filter::Grayscale => if p.a > 0 {
            grayscale(p)
        } else {
            p
        },
        Filter::Adjust(brightness, contrast) => if p.a > 0 {
            adjust(p, brightness as int, contrast as int)
        } else {
            p
        },
        Filter::Blur(radius) => if p.a > 0 {
            blurred(layer, w, h, radius as int, x, y)
        } else {
            p
        },
    }
}

impl CanvasView {
    /// The drawing layer after an operation on all of it.
    pub open spec fn filtered_layer(self, op: Filter) -> Seq<u8> {
        grid_map(
            self.layer,
            4 * self.image_width(),
            self.image_width(),
            |x: int, y: int| filter_value(self.layer, self.image_width(), self.image_height(), op, x, y),
        )
    }

    /// An operation on the whole drawing layer, followed by a rebuild of the
    /// composite buffer. Without an image only the dirty flag is set.
    pub open spec fn filter(self, op: Filter) -> CanvasView {
        if self.image_size is Some {
            CanvasView {
                dirty: true,
                ..(CanvasView { layer: self.filtered_layer(op), ..self }).rerender()
            }
        } else {
            CanvasView { dirty: true, ..self }
        }
    }

    /// Moves what was drawn by `(dx, dy)` image pixels; what leaves the
    /// image is lost.
    pub open spec fn move_layer(self, dx: i32, dy: i32) -> CanvasView {
        self.filter(Filter::Move(dx, dy))
    }

    /// Replaces red, green and blue of every drawn pixel by `255 - c`.
    pub open spec fn filter_invert(self) -> CanvasView {
        self.filter(Filter::Invert)
    }

    /// Replaces red, green and blue of every drawn pixel by its luminosity.
    pub open spec fn filter_grayscale(self) -> CanvasView {
        self.filter(Filter::Grayscale)
    }

    /// Adjusts brightness and contrast of every drawn pixel.
    pub open spec fn filter_brightness_contrast(self, brightness: i32, contrast: i32) -> CanvasView {
        self.filter(Filter::Adjust(brightness, contrast))
    }

    /// Box-blurs every drawn pixel. Radius 0 changes nothing.
    pub open spec fn filter_blur(self, radius: u32) -> CanvasView {
        if radius == 0 {
            self
        } else {
            self.filter(Filter::Blur(radius))
        }
    }
}

/// A sum over `n` pixels is at most `255 n`.
pub proof fn lemma_row_sum_bound(buf: Seq<u8>, stride: int, y: int, x0: int, n: nat, ch: int)
    ensures
        0 <= row_sum(buf, stride, y, x0, n, ch) <= 255 * n,
    decreases n,
{
    if n > 0 {
        lemma_row_sum_bound(buf, stride, y, x0, (n - 1) as nat, ch);
    }
}

/// A sum over a box of `nx` by `ny` pixels is at most `255 nx ny`.
pub proof fn lemma_box_sum_bound(
    buf: Seq<u8>,
    stride: int,
    x0: int,
    nx: nat,
    y0: int,
    ny: nat,
    ch: int,
)
    ensures
        0 <= box_sum(buf, stride, x0, nx, y0, ny, ch) <= 255 * (nx * ny),
    decreases ny,
{
    if ny > 0 {
        lemma_box_sum_bound(buf, stride, x0, nx, y0, (ny - 1) as nat, ch);
        lemma_row_sum_bound(buf, stride, y0 + ny - 1, x0, nx, ch);
        assert(nx * ny == nx * (ny - 1) + nx) by (nonlinear_arith);
    } else {
        assert(nx * ny == 0) by (nonlinear_arith)
            requires
                ny == 0,
        ;
    }
}

/// Where every pixel of a row segment has the same value on a channel, the
/// sum is that value times the number of pixels.
pub proof fn lemma_row_sum_uniform(
    buf: Seq<u8>,
    stride: int,
    y: int,
    x0: int,
    n: nat,
    ch: int,
    value: int,
)
    requires
        forall|x: int| x0 <= x < x0 + n ==> channel(#[trigger] pixel_at(buf, stride, x, y), ch) == value,
    ensures
        row_sum(buf, stride, y, x0, n, ch) == value * n,
    decreases n,
{
    if n > 0 {
        lemma_row_sum_uniform(buf, stride, y, x0, (n - 1) as nat, ch, value);
        assert(value * n == value * (n - 1) + value) by (nonlinear_arith);
    } else {
        assert(value * n == 0) by (nonlinear_arith)
            requires
                n == 0,
        ;
    }
}

/// Where every pixel of a box has the same value on a channel, the sum is
/// that value times the number of pixels.
pub proof fn lemma_box_sum_uniform(
    buf: Seq<u8>,
    stride: int,
    x0: int,
    nx: nat,
    y0: int,
    ny: nat,
    ch: int,
    value: int,
)
    requires
        forall|x: int, y: int|
            x0 <= x < x0 + nx && y0 <= y < y0 + ny ==> channel(
                #[trigger] pixel_at(buf, stride, x, y),
                ch,
            ) == value,
    ensures
        box_sum(buf, stride, x0, nx, y0, ny, ch) == value * (nx * ny),
    decreases ny,
{
    if ny > 0 {
        lemma_box_sum_uniform(buf, stride, x0, nx, y0, (ny - 1) as nat, ch, value);
        lemma_row_sum_uniform(buf, stride, y0 + ny - 1, x0, nx, ch, value);
        assert(value * (nx * ny) == value * (nx * (ny - 1)) + value * nx) by (nonlinear_arith);
    } else {
        assert(value * (nx * ny) == 0) by (nonlinear_arith)
            requires
                ny == 0,
        ;
    }
}

/// The sums of the four channels over some pixels.
pub struct Sums {
    pub r: u128,
    pub g: u128,
    pub b: u128,
    pub a: u128,
}

impl Sums {
    /// Whether these are the sums over `n` pixels of row `y`, from column
    /// `x0` on.
    pub open spec fn of_row(self, buf: Seq<u8>, stride: int, y: int, x0: int, n: nat) -> bool {
        &&& self.r == row_sum(buf, stride, y, x0, n, 0)
        &&& self.g == row_sum(buf, stride, y, x0, n, 1)
        &&& self.b == row_sum(buf, stride, y, x0, n, 2)
        &&& self.a == row_sum(buf, stride, y, x0, n, 3)
    }

    /// Whether these are the sums over a box of `nx` by `ny` pixels at
    /// `(x0, y0)`.
    pub open spec fn of_box(
        self,
        buf: Seq<u8>,
        stride: int,
        x0: int,
        nx: nat,
        y0: int,
        ny: nat,
    ) -> bool {
        &&& self.r == box_sum(buf, stride, x0, nx, y0, ny, 0)
        &&& self.g == box_sum(buf, stride, x0, nx, y0, ny, 1)
        &&& self.b == box_sum(buf, stride, x0, nx, y0, ny, 2)
        &&& self.a == box_sum(buf, stride, x0, nx, y0, ny, 3)
    }

    /// No sum is above `limit`.
    pub open spec fn within(self, limit: int) -> bool {
        self.r <= limit && self.g <= limit && self.b <= limit && self.a <= limit
    }
}

/// Sums of a row segment are at most 255 per pixel.
pub proof fn lemma_row_sums_within(s: Sums, buf: Seq<u8>, stride: int, y: int, x0: int, n: nat)
    requires
        s.of_row(buf, stride, y, x0, n),
    ensures
        s.within(255 * (n as int)),
{
    lemma_row_sum_bound(buf, stride, y, x0, n, 0);
    lemma_row_sum_bound(buf, stride, y, x0, n, 1);
    lemma_row_sum_bound(buf, stride, y, x0, n, 2);
    lemma_row_sum_bound(buf, stride, y, x0, n, 3);
}

/// Sums of a box are at most 255 per pixel.
pub proof fn lemma_box_sums_within(
    s: Sums,
    buf: Seq<u8>,
    stride: int,
    x0: int,
    nx: nat,
    y0: int,
    ny: nat,
)
    requires
        s.of_box(buf, stride, x0, nx, y0, ny),
    ensures
        s.within(255 * ((nx * ny) as int)),
{
    lemma_box_sum_bound(buf, stride, x0, nx, y0, ny, 0);
    lemma_box_sum_bound(buf, stride, x0, nx, y0, ny, 1);
    lemma_box_sum_bound(buf, stride, x0, nx, y0, ny, 2);
    lemma_box_sum_bound(buf, stride, x0, nx, y0, ny, 3);
}

/// Channel sums over `nx` pixels of row `y`, from column `x0` on.
fn sum_row(src: &Vec<u8>, w: u32, h: u32, x0: u32, nx: u64, y: u32) -> (s: Sums)
    requires
        is_grid(src@.len() as int, 4 * w, w as int, h as int),
        4 * w <= usize::MAX,
        x0 + nx <= w,
        y < h,
    ensures
        s.of_row(src@, 4 * w, y as int, x0 as int, nx as nat),
{
    let row: usize = 4 * w as usize;
    let mut s = Sums { r: 0, g: 0, b: 0, a: 0 };
    let mut cols: u64 = 0;
    while cols < nx
        invariant
            is_grid(src@.len() as int, 4 * w, w as int, h as int),
            row == 4 * w,
            x0 + nx <= w,
            y < h,
            cols <= nx,
            s.of_row(src@, row as int, y as int, x0 as int, cols as nat),
        decreases nx - cols,
    {
        let bx: usize = (x0 as u64 + cols) as usize;
        proof {
            lemma_offset_bounds(row as int, w as int, h as int, bx as int, y as int);
            lemma_row_sums_within(s, src@, row as int, y as int, x0 as int, cols as nat);
        }
        let p: [u8; 4] = load_pixel(src, row, bx, y as usize);
        s = Sums {
            r: s.r + p[0] as u128,
            g: s.g + p[1] as u128,
            b: s.b + p[2] as u128,
            a: s.a + p[3] as u128,
        };
        cols += 1;
    }
    s
}

/// The box blur of pixel `(x, y)` of a tight-packed layer.
fn blur_pixel(src: &Vec<u8>, w: u32, h: u32, radius: u32, x: u32, y: u32) -> (c: [u8; 4])
    requires
        is_grid(src@.len() as int, 4 * w, w as int, h as int),
        4 * w <= usize::MAX,
        x < w,
        y < h,
    ensures
        rgba(c) == blurred(src@, w as int, h as int, radius as int, x as int, y as int),
{
    let x0: u32 = if x < radius {
        0
    } else {
        x - radius
    };
    let y0: u32 = if y < radius {
        0
    } else {
        y - radius
    };
    let x1: u32 = if x as u64 + radius as u64 > w as u64 - 1 {
        w - 1
    } else {
        x + radius
    };
    let y1: u32 = if y as u64 + radius as u64 > h as u64 - 1 {
        h - 1
    } else {
        y + radius
    };
    let nx: u64 = (x1 - x0) as u64 + 1;
    let ny: u64 = (y1 - y0) as u64 + 1;
    assert(0 < nx * ny <= 0x1_0000_0000 * 0x1_0000_0000) by (nonlinear_arith)
        requires
            0 < nx <= 0x1_0000_0000,
            0 < ny <= 0x1_0000_0000,
    ;
    let count: u128 = nx as u128 * ny as u128;
    let mut sums = Sums { r: 0, g: 0, b: 0, a: 0 };
    let mut rows: u64 = 0;
    while rows < ny
        invariant
            is_grid(src@.len() as int, 4 * w, w as int, h as int),
            4 * w <= usize::MAX,
            x0 + nx <= w,
            y0 + ny <= h,
            0 < nx <= 0x1_0000_0000,
            rows <= ny <= 0x1_0000_0000,
            sums.of_box(src@, 4 * w, x0 as int, nx as nat, y0 as int, rows as nat),
        decreases ny - rows,
    {
        let by: u32 = (y0 as u64 + rows) as u32;
        let line: Sums = sum_row(src, w, h, x0, nx, by);
        proof {
            lemma_box_sums_within(sums, src@, 4 * w, x0 as int, nx as nat, y0 as int, rows as nat);
            lemma_row_sums_within(line, src@, 4 * w, by as int, x0 as int, nx as nat);
            assert(0 <= nx * rows <= 0x1_0000_0000 * 0x1_0000_0000) by (nonlinear_arith)
                requires
                    0 < nx <= 0x1_0000_0000,
                    0 <= rows <= 0x1_0000_0000,
            ;
        }
        sums = Sums {
            r: sums.r + line.r,
            g: sums.g + line.g,
            b: sums.b + line.b,
            a: sums.a + line.a,
        };
        rows += 1;
    }
    proof {
        lemma_box_sums_within(sums, src@, 4 * w, x0 as int, nx as nat, y0 as int, ny as nat);
        lemma_mean_bound(sums.r as int, count as int);
        lemma_mean_bound(sums.g as int, count as int);
        lemma_mean_bound(sums.b as int, count as int);
        lemma_mean_bound(sums.a as int, count as int);
    }
    [
        (sums.r / count) as u8,
        (sums.g / count) as u8,
        (sums.b / count) as u8,
        (sums.a / count) as u8,
    ]
}

/// The mean of `count` values of at most 255 each is at most 255.
pub proof fn lemma_mean_bound(sum: int, count: int)
    by (nonlinear_arith)
    requires
        count > 0,
        0 <= sum <= 255 * count,
    ensures
        0 <= sum / count <= 255,
{
}

/// What an operation leaves at pixel `(x, y)` of a tight-packed layer.
fn filter_pixel(src: &Vec<u8>, w: u32, h: u32, op: &Filter, x: u32, y: u32) -> (c: [u8; 4])
    requires
        is_grid(src@.len() as int, 4 * w, w as int, h as int),
        4 * w <= usize::MAX,
        x < w,
        y < h,
    ensures
        rgba(c) == filter_value(src@, w as int, h as int, *op, x as int, y as int),
{
    let row: usize = 4 * w as usize;
    proof {
        lemma_offset_bounds(row as int, w as int, h as int, x as int, y as int);
    }
    let p: [u8; 4] = load_pixel(src, row, x as usize, y as usize);
    match op {
        Filter::Move(dx, dy) => {
            let from_x: i64 = x as i64 - *dx as i64;
            let from_y: i64 = y as i64 - *dy as i64;
            if 0 <= from_x && from_x < w as i64 && 0 <= from_y && from_y < h as i64 {
                proof {
                    lemma_offset_bounds(row as int, w as int, h as int, from_x as int, from_y as int);
                }
                load_pixel(src, row, from_x as usize, from_y as usize)
            } else {
                [0, 0, 0, 0]
            }
        },
        Filter::Invert => {
            if p[3] > 0 {
                [255 - p[0], 255 - p[1], 255 - p[2], p[3]]
            } else {
                p
            }
        },
        Filter::Grayscale => {
            if p[3] > 0 {
                let gray: u8 = luminosity(p[0], p[1], p[2]);
                [gray, gray, gray, p[3]]
            } else {
                p
            }
        },
        Filter::Adjust(brightness, contrast) => {
            if p[3] > 0 {
                [
                    adjust_channel(p[0], *brightness, *contrast),
                    adjust_channel(p[1], *brightness, *contrast),
                    adjust_channel(p[2], *brightness, *contrast),
                    p[3],
                ]
            } else {
                p
            }
        },
        Filter::Blur(radius) => {
            if p[3] > 0 {
                blur_pixel(src, w, h, *radius, x, y)
            } else {
                p
            }
        },
    }
}

impl Canvas {
    /// Recomputes every pixel of the drawing layer from the layer as it is.
    fn filter_layer(&mut self, op: &Filter)
        requires
            old(self).wf(),
            old(self)@.image_size is Some,
        ensures
            final(self).wf(),
            final(self)@ == (CanvasView { layer: old(self)@.filtered_layer(*op), ..old(self)@ }),
    {
        let ghost before = self@;
        let w: u32 = self.image_width();
        let h: u32 = self.image_height();
        if h == 0 || w == 0 {
            proof {
                lemma_wf_layer_grid(before);
                assert(tight_len(w as int, h as int) == 0) by (nonlinear_arith)
                    requires
                        w == 0 || h == 0,
                ;
                assert(self@.layer =~= before.filtered_layer(*op));
            }
            return;
        }
        let row: usize = self.layer_stride();
        let src: Vec<u8> = self.drawing_layer.clone();
        let ghost base = self.drawing_layer@;
        let ghost f = |x: int, y: int| filter_value(base, w as int, h as int, *op, x, y);
        assert(src@ == base);
        let mut y: u32 = 0;
        while y < h
            invariant
                y <= h,
                before.wf(),
                before.layer == base,
                src@ == base,
                w == before.image_width(),
                h == before.image_height(),
                row == 4 * w,
                self@ == (CanvasView { layer: self.drawing_layer@, ..before }),
                is_grid(base.len() as int, row as int, w as int, h as int),
                f == (|x: int, y: int| filter_value(base, w as int, h as int, *op, x, y)),
                grid_partial(
                    self.drawing_layer@,
                    base,
                    row as int,
                    w as int,
                    h as int,
                    f,
                    |x2: int, y2: int| y2 < y,
                ),
            decreases h - y,
        {
            let mut x: u32 = 0;
            while x < w
                invariant
                    x <= w,
                    y < h,
                    before.wf(),
                    before.layer == base,
                    src@ == base,
                    w == before.image_width(),
                    h == before.image_height(),
                    row == 4 * w,
                    self@ == (CanvasView { layer: self.drawing_layer@, ..before }),
                    is_grid(base.len() as int, row as int, w as int, h as int),
                    f == (|x: int, y: int| filter_value(base, w as int, h as int, *op, x, y)),
                    grid_partial(
                        self.drawing_layer@,
                        base,
                        row as int,
                        w as int,
                        h as int,
                        f,
                        |x2: int, y2: int| y2 < y || (y2 == y && x2 < x),
                    ),
                decreases w - x,
            {
                let ghost cur = self.drawing_layer@;
                let c: [u8; 4] = filter_pixel(&src, w, h, op, x, y);
                proof {
                    lemma_offset_bounds(row as int, w as int, h as int, x as int, y as int);
                }
                store_pixel(&mut self.drawing_layer, row, x as usize, y as usize, c);
                proof {
                    lemma_grid_partial_step(
                        cur,
                        base,
                        row as int,
                        w as int,
                        h as int,
                        f,
                        |x2: int, y2: int| y2 < y || (y2 == y && x2 < x),
                        x as int,
                        y as int,
                        |x2: int, y2: int| y2 < y || (y2 == y && x2 < x + 1),
                    );
                }
                x += 1;
            }
            proof {
                lemma_grid_partial_skip(
                    self.drawing_layer@,
                    base,
                    row as int,
                    w as int,
                    h as int,
                    f,
                    |x2: int, y2: int| y2 < y || (y2 == y && x2 < x),
                    |x2: int, y2: int| y2 < y + 1,
                );
            }
            y += 1;
        }
        proof {
            lemma_grid_partial_done(
                self.drawing_layer@,
                base,
                row as int,
                w as int,
                h as int,
                f,
                |x2: int, y2: int| y2 < y,
            );
        }
    }

    /// An operation on the whole drawing layer, followed by a rebuild of the
    /// composite buffer. Without an image only the dirty flag is set.
    fn filter(&mut self, op: &Filter)
        requires
            old(self).wf(),
        ensures
            final(self).wf(),
            final(self)@ == old(self)@.filter(*op),
    {
        if self.loaded_image_size.is_some() {
            self.filter_layer(op);
            self.repan_image(self.pan_offset.0, self.pan_offset.1);
        }
        self.dirty = true;
    }

    /// Moves what was drawn by `(offset_x, offset_y)` image pixels and
    /// rebuilds the composite buffer. What leaves the image is lost; what
    /// enters is transparent.
    pub fn move_layer(&mut self, offset_x: i32, offset_y: i32)
        requires
            old(self).wf(),
        ensures
            final(self).wf(),
            final(self)@ == old(self)@.move_layer(offset_x, offset_y),
    {
        self.filter(&Filter::Move(offset_x, offset_y));
    }

    /// Inverts red, green and blue of every drawn pixel.
    pub fn filter_invert(&mut self)
        requires
            old(self).wf(),
        ensures
            final(self).wf(),
            final(self)@ == old(self)@.filter_invert(),
    {
        self.filter(&Filter::Invert);
    }

    /// Turns every drawn pixel to the grey of its luminosity.
    pub fn filter_grayscale(&mut self)
        requires
            old(self).wf(),
        ensures
            final(self).wf(),
            final(self)@ == old(self)@.filter_grayscale(),
    {
        self.filter(&Filter::Grayscale);
    }

    /// Adjusts brightness and contrast of every drawn pixel; both are
    /// meant to lie in about `-255..=255`.
    pub fn filter_brightness_contrast(&mut self, brightness: i32, contrast: i32)
        requires
            old(self).wf(),
        ensures
            final(self).wf(),
            final(self)@ == old(self)@.filter_brightness_contrast(brightness, contrast),
    {
        self.filter(&Filter::Adjust(brightness, contrast));
    }

    /// Box-blurs every drawn pixel with a window of the given radius,
    /// clipped to the image. Radius 0 does nothing.
    pub fn filter_blur(&mut self, radius: u32)
        requires
            old(self).wf(),
        ensures
            final(self).wf(),
            final(self)@ == old(self)@.filter_blur(radius),
    {
        if radius == 0 {
            return;
        }
        self.filter(&Filter::Blur(radius));
    }
}

/// The drawing layer after an operation on it is the operation's result;
/// the rebuild of the composite buffer that follows leaves it alone.
pub proof fn lemma_filter_layer(v: CanvasView, op: Filter)
    requires
        v.wf(),
        v.image_size is Some,
    ensures
        v.filter(op).layer == v.filtered_layer(op),
        v.filter(op).image_size == v.image_size,
{
}

/// No filter changes a drawing-layer pixel whose alpha is 0.
pub proof fn lemma_filter_masks(v: CanvasView, op: Filter, x: int, y: int)
    requires
        v.wf(),
        v.image_size is Some,
        in_grid(v.image_width(), v.image_height(), x, y),
        !(op is Move),
        v.layer_pixel(x, y).a == 0,
    ensures
        v.filter(op).layer_pixel(x, y) == v.layer_pixel(x, y),
{
    lemma_filter_layer(v, op);
    lemma_wf_layer_grid(v);
    crate::grid::lemma_grid_map(
        v.layer,
        4 * v.image_width(),
        v.image_width(),
        v.image_height(),
        |x: int, y: int| filter_value(v.layer, v.image_width(), v.image_height(), op, x, y),
    );
}

/// The mean of equal values is that value.
pub proof fn lemma_mean_of_equal(value: int, count: int)
    by (nonlinear_arith)
    requires
        count > 0,
    ensures
        (value * count) / count == value,
{
}

/// Where the whole blur window of a pixel holds one colour, the blur leaves
/// the pixel at that colour.
pub proof fn lemma_blur_uniform(
    layer: Seq<u8>,
    w: int,
    h: int,
    radius: int,
    x: int,
    y: int,
    c: Rgba,
)
    requires
        in_grid(w, h, x, y),
        radius >= 0,
        forall|bx: int, by: int|
            window_start(x, radius) <= bx <= window_end(x, radius, w) && window_start(y, radius)
                <= by <= window_end(y, radius, h) ==> #[trigger] pixel_at(layer, 4 * w, bx, by)
                == c,
    ensures
        blurred(layer, w, h, radius, x, y) == c,
{
    let x0 = window_start(x, radius);
    let y0 = window_start(y, radius);
    let nx = (window_end(x, radius, w) - x0 + 1) as nat;
    let ny = (window_end(y, radius, h) - y0 + 1) as nat;
    assert(nx * ny > 0) by (nonlinear_arith)
        requires
            nx > 0,
            ny > 0,
    ;
    lemma_box_sum_uniform(layer, 4 * w, x0, nx, y0, ny, 0, c.r as int);
    lemma_box_sum_uniform(layer, 4 * w, x0, nx, y0, ny, 1, c.g as int);
    lemma_box_sum_uniform(layer, 4 * w, x0, nx, y0, ny, 2, c.b as int);
    lemma_box_sum_uniform(layer, 4 * w, x0, nx, y0, ny, 3, c.a as int);
    lemma_mean_of_equal(c.r as int, (nx * ny) as int);
    lemma_mean_of_equal(c.g as int, (nx * ny) as int);
    lemma_mean_of_equal(c.b as int, (nx * ny) as int);
    lemma_mean_of_equal(c.a as int, (nx * ny) as int);
}

} // verus!
