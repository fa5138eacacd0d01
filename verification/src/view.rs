//! The mathematical model of a canvas and of each operation on it.

use vstd::prelude::*;
use crate::pixel::Rgba;
use crate::pixel::white;
use crate::pixel::blend;
use crate::pixel::over;
use crate::grid::offset;
use crate::grid::pixel_at;
use crate::grid::put_pixel;
use crate::grid::grid_map;
use crate::grid::is_grid;
use crate::grid::in_grid;
use crate::grid::lemma_grid_map;
use crate::grid::lemma_grid_ext;
use crate::grid::lemma_index_join;
use crate::grid::lemma_put_pixel;

verus! {

/// Alignment, in bytes, of a row of the composite buffer.
pub open spec fn row_alignment() -> int {
    256
}

/// The row stride of a composite buffer `width` pixels wide: four bytes per
/// pixel, rounded up to the row alignment.
pub open spec fn aligned_stride_spec(width: int) -> int {
    (width * 4 + (row_alignment() - 1)) / row_alignment() * row_alignment()
}

/// Canvas pixels per image pixel, as the ratio `num / den`.
#[derive(Clone, Copy, Debug, PartialEq, Eq, Structural)]
pub struct Zoom {
    pub num: u64,
    pub den: u64,
}

impl Zoom {
    /// A zoom is a positive ratio.
    pub open spec fn valid(self) -> bool {
        self.num > 0 && self.den > 0
    }

    /// Whether two zooms are the same ratio.
    pub open spec fn same_ratio(self, other: Zoom) -> bool {
        self.num * other.den == other.num * self.den
    }

    /// The zoom with every common factor `p` of its two numbers taken out.
    pub open spec fn strip(self, p: u64) -> Zoom
        decreases self.num,
    {
        if p >= 2 && self.num > 0 && self.num % p == 0 && self.den % p == 0 {
            proof {
                vstd::arithmetic::div_mod::lemma_div_decreases(self.num as int, p as int);
            }
            (Zoom { num: self.num / p, den: self.den / p }).strip(p)
        } else {
            self
        }
    }

    /// The zoom with the common factors 2 and 5 taken out, which are all
    /// that steps of zooming bring in.
    pub open spec fn reduced(self) -> Zoom {
        self.strip(2).strip(5)
    }

    /// The zoom times `mul / div`, held to a tenth at least and 5 at most,
    /// and reduced. The zoom stays as it is where the products do not fit
    /// in 64 bits.
    pub open spec fn stepped(self, mul: u64, div: u64) -> Zoom {
        if self.num * mul > u64::MAX || self.den * div > u64::MAX || self.den * div * 5
            > u64::MAX || self.num * mul * 10 > u64::MAX {
            self
        } else if self.num * mul >= 5 * (self.den * div) {
            Zoom { num: 5, den: 1 }
        } else if 10 * (self.num * mul) <= self.den * div {
            Zoom { num: 1, den: 10 }
        } else {
            (Zoom { num: (self.num * mul) as u64, den: (self.den * div) as u64 }).reduced()
        }
    }

    /// One step in: a quarter more, at most 5.
    pub open spec fn zoomed_in(self) -> Zoom {
        self.stepped(5, 4)
    }

    /// One step out: a fifth less, at least a tenth.
    pub open spec fn zoomed_out(self) -> Zoom {
        self.stepped(4, 5)
    }
}

/// The image-space coordinate of canvas coordinate `c`, on one axis:
/// `floor(c / zoom) - pan`.
pub open spec fn image_coord(c: int, zoom: Zoom, pan: int) -> int {
    (c * zoom.den) / (zoom.num as int) - pan
}

/// Number of bytes of a tight-packed RGBA8 buffer.
pub open spec fn tight_len(width: int, height: int) -> int {
    width * height * 4
}

/// Whether a tight-packed RGBA8 buffer of the given size fits in memory.
pub fn tight_fits(width: u32, height: u32) -> (fits: bool)
    ensures
        fits == (tight_len(width as int, height as int) <= usize::MAX),
{
    assert(0 <= width * height <= 0xffff_ffff * 0xffff_ffff) by (nonlinear_arith)
        requires
            0 <= width <= 0xffff_ffff,
            0 <= height <= 0xffff_ffff,
    ;
    width as u128 * height as u128 * 4 <= usize::MAX as u128
}

/// What a canvas is, as contracts see it.
#[verifier::ext_equal]
pub struct CanvasView {
    /// Size of the composite buffer, in pixels.
    pub width: int,
    pub height: int,
    /// Bytes per row of the composite buffer.
    pub stride: int,
    /// The composite buffer.
    pub pixels: Seq<u8>,
    pub dirty: bool,
    /// Size of the loaded image, if there is one.
    pub image_size: Option<(int, int)>,
    /// Pixels of the loaded image, tight-packed.
    pub image_data: Option<Seq<u8>>,
    pub zoom: Zoom,
    /// The drawing layer, tight-packed, in image space.
    pub layer: Seq<u8>,
    pub pan: (int, int),
}

impl CanvasView {
    /// The invariant of a canvas: the stride is aligned, the composite
    /// buffer has `stride * height` bytes, the zoom is positive, and the
    /// drawing layer has the size of the loaded image.
    pub open spec fn wf(self) -> bool {
        &&& 0 <= self.width
        &&& 0 <= self.height
        &&& self.stride == aligned_stride_spec(self.width)
        &&& self.pixels.len() == self.stride * self.height
        &&& self.zoom.valid()
        &&& (self.image_size is Some <==> self.image_data is Some)
        &&& match self.image_size {
            Some((w, h)) => 0 <= w && 0 <= h && self.layer.len() == tight_len(w, h),
            None => true,
        }
    }

    pub open spec fn in_canvas(self, x: int, y: int) -> bool {
        0 <= x < self.width && 0 <= y < self.height
    }

    /// The composite pixel at canvas coordinates.
    pub open spec fn pixel(self, x: int, y: int) -> Rgba {
        pixel_at(self.pixels, self.stride, x, y)
    }

    /// Width of the loaded image, 0 without one.
    pub open spec fn image_width(self) -> int {
        match self.image_size {
            Some((w, h)) => w,
            None => 0,
        }
    }

    /// Height of the loaded image, 0 without one.
    pub open spec fn image_height(self) -> int {
        match self.image_size {
            Some((w, h)) => h,
            None => 0,
        }
    }

    /// Image-space column of canvas column `x`.
    pub open spec fn image_x(self, x: int) -> int {
        image_coord(x, self.zoom, self.pan.0)
    }

    /// Image-space row of canvas row `y`.
    pub open spec fn image_y(self, y: int) -> int {
        image_coord(y, self.zoom, self.pan.1)
    }

    /// Whether a pixel of the loaded image lies under canvas pixel `(x, y)`.
    pub open spec fn mapped(self, x: int, y: int) -> bool {
        &&& 0 <= self.image_x(x) < self.image_width()
        &&& 0 <= self.image_y(y) < self.image_height()
    }

    /// The drawing-layer pixel at image coordinates.
    pub open spec fn layer_pixel(self, ix: int, iy: int) -> Rgba {
        pixel_at(self.layer, 4 * self.image_width(), ix, iy)
    }

    /// The drawing-layer pixel under canvas pixel `(x, y)`.
    pub open spec fn layer_under(self, x: int, y: int) -> Rgba {
        self.layer_pixel(self.image_x(x), self.image_y(y))
    }

    /// The drawing layer with the pixel under canvas pixel `(x, y)` replaced.
    pub open spec fn put_layer_under(self, x: int, y: int, c: Rgba) -> Seq<u8> {
        put_pixel(self.layer, 4 * self.image_width(), self.image_x(x), self.image_y(y), c)
    }

    /// Whether the loaded image data holds all four bytes of the pixel under
    /// canvas pixel `(x, y)`.
    pub open spec fn sampled(self, x: int, y: int) -> bool {
        &&& self.mapped(x, y)
        &&& self.image_data is Some
        &&& offset(4 * self.image_width(), self.image_x(x), self.image_y(y)) + 4
            <= self.image_data->0.len()
    }

    /// The image pixel under canvas pixel `(x, y)`.
    pub open spec fn image_under(self, x: int, y: int) -> Rgba {
        pixel_at(self.image_data->0, 4 * self.image_width(), self.image_x(x), self.image_y(y))
    }

    /// What lies behind the drawing layer at canvas pixel `(x, y)`: the
    /// image pixel found there by nearest-neighbour sampling, white outside
    /// the image, and the present composite pixel where the image data is
    /// too short to hold the sample.
    pub open spec fn background(self, x: int, y: int) -> Rgba {
        if !self.mapped(x, y) {
            white()
        } else if self.sampled(x, y) {
            self.image_under(x, y)
        } else {
            self.pixel(x, y)
        }
    }

    /// The drawing layer laid over the present composite pixel.
    pub open spec fn composited(self, x: int, y: int) -> Rgba {
        if self.mapped(x, y) {
            over(self.layer_under(x, y), self.pixel(x, y))
        } else {
            self.pixel(x, y)
        }
    }

    /// A white canvas of the given size, without an image.
    pub open spec fn blank(width: int, height: int) -> CanvasView {
        CanvasView {
            width: width,
            height: height,
            stride: aligned_stride_spec(width),
            pixels: Seq::new((aligned_stride_spec(width) * height) as nat, |i: int| 255u8),
            dirty: false,
            image_size: None,
            image_data: None,
            zoom: Zoom { num: 1, den: 1 },
            layer: Seq::empty(),
            pan: (0, 0),
        }
    }

    /// Pixel `(x, y)` taken from another canvas where that has it, else
    /// left as it is.
    pub open spec fn kept(self, other: CanvasView, x: int, y: int) -> Rgba {
        if other.in_canvas(x, y) {
            other.pixel(x, y)
        } else {
            self.pixel(x, y)
        }
    }

    /// A blank canvas of another size with the top-left corner of this one
    /// copied into it, as far as both reach.
    pub open spec fn resized(self, width: int, height: int) -> CanvasView {
        let blank = Self::blank(width, height);
        CanvasView {
            pixels: grid_map(
                blank.pixels,
                blank.stride,
                blank.width,
                |x: int, y: int| blank.kept(self, x, y),
            ),
            dirty: true,
            ..blank
        }
    }

    /// Whether a tight-packed buffer of the canvas's width holds all of
    /// row `y`.
    pub open spec fn has_row(self, tight: Seq<u8>, y: int) -> bool {
        (y + 1) * (4 * self.width) <= tight.len()
    }

    /// Pixel `(x, y)` after loading a tight-packed buffer: taken from the
    /// buffer where it holds the whole row, else left as it is.
    pub open spec fn loaded(self, tight: Seq<u8>, x: int, y: int) -> Rgba {
        if self.has_row(tight, y) {
            pixel_at(tight, 4 * self.width, x, y)
        } else {
            self.pixel(x, y)
        }
    }

    /// Copies a tight-packed buffer of the canvas's own size into the
    /// composite buffer, row by row. A buffer of another size is ignored.
    pub open spec fn load_pixels(self, width: int, height: int, tight: Seq<u8>) -> CanvasView {
        if width != self.width || height != self.height {
            self
        } else {
            CanvasView {
                pixels: grid_map(
                    self.pixels,
                    self.stride,
                    self.width,
                    |x: int, y: int| self.loaded(tight, x, y),
                ),
                dirty: true,
                ..self
            }
        }
    }

    /// The composite buffer without its padding.
    pub open spec fn extract_tight_pixels(self) -> Seq<u8> {
        Seq::new(
            tight_len(self.width, self.height) as nat,
            |i: int| self.pixels[(i / (4 * self.width)) * self.stride + i % (4 * self.width)],
        )
    }

    /// Whether `(px, py)` lies in the rectangle of size `w` by `h` at `(x, y)`.
    pub open spec fn in_rect(x: int, y: int, w: int, h: int, px: int, py: int) -> bool {
        x <= px < x + w && y <= py < y + h
    }

    /// Overwrites a rectangle of the composite buffer, clipped to the canvas.
    /// An empty rectangle changes nothing.
    pub open spec fn fill_rect(self, x: int, y: int, w: int, h: int, c: Rgba) -> CanvasView {
        if w == 0 || h == 0 {
            self
        } else {
            CanvasView {
                pixels: grid_map(
                    self.pixels,
                    self.stride,
                    self.width,
                    |px: int, py: int|
                        if Self::in_rect(x, y, w, h, px, py) {
                            c
                        } else {
                            self.pixel(px, py)
                        },
                ),
                dirty: true,
                ..self
            }
        }
    }

    /// Overwrites one composite pixel.
    pub open spec fn set_pixel(self, x: int, y: int, c: Rgba) -> CanvasView {
        if !self.in_canvas(x, y) {
            self
        } else {
            CanvasView {
                pixels: put_pixel(self.pixels, self.stride, x, y, c),
                dirty: true,
                ..self
            }
        }
    }

    /// Blends a colour into the composite pixel `(x, y)` and into the
    /// drawing-layer pixel under it.
    pub open spec fn blend_pixel(self, x: int, y: int, c: Rgba) -> CanvasView {
        if !self.in_canvas(x, y) {
            self
        } else {
            CanvasView {
                pixels: put_pixel(self.pixels, self.stride, x, y, blend(c, self.pixel(x, y))),
                layer: if self.mapped(x, y) {
                    self.put_layer_under(x, y, blend(c, self.layer_under(x, y)))
                } else {
                    self.layer
                },
                dirty: true,
                ..self
            }
        }
    }

    /// The composite buffer re-sampled from the loaded image.
    pub open spec fn backdrop(self) -> CanvasView {
        CanvasView {
            pixels: grid_map(
                self.pixels,
                self.stride,
                self.width,
                |x: int, y: int| self.background(x, y),
            ),
            ..self
        }
    }

    /// The drawing layer laid over the composite buffer.
    pub open spec fn composite_layers(self) -> CanvasView {
        CanvasView {
            pixels: grid_map(
                self.pixels,
                self.stride,
                self.width,
                |x: int, y: int| self.composited(x, y),
            ),
            ..self
        }
    }

    /// The canvas with a new image, offset and, if the image size changed,
    /// a cleared drawing layer; the composite buffer is left as it is.
    pub open spec fn with_image(self, w: int, h: int, data: Seq<u8>, pan: (int, int)) -> CanvasView {
        CanvasView {
            image_size: Some((w, h)),
            image_data: Some(data),
            pan: pan,
            layer: if self.image_size == Some((w, h)) {
                self.layer
            } else {
                Seq::new(tight_len(w, h) as nat, |i: int| 0u8)
            },
            ..self
        }
    }

    /// Loads an image at an offset and rebuilds the composite buffer.
    pub open spec fn paste_image_with_offset(
        self,
        w: int,
        h: int,
        data: Seq<u8>,
        pan: (int, int),
    ) -> CanvasView {
        CanvasView { dirty: true, ..self.with_image(w, h, data, pan).backdrop().composite_layers() }
    }

    /// Rebuilds the composite buffer from the loaded image at a new offset.
    pub open spec fn repan_image(self, pan: (int, int)) -> CanvasView {
        match (self.image_size, self.image_data) {
            (Some((w, h)), Some(data)) => self.paste_image_with_offset(w, h, data, pan),
            _ => self,
        }
    }

    /// Rebuilds the composite buffer from the loaded image and the drawing
    /// layer, if an image is loaded.
    pub open spec fn rerender(self) -> CanvasView {
        self.repan_image(self.pan)
    }
}

/// The stride of a row is aligned and holds the row.
pub proof fn lemma_aligned_stride(width: int)
    requires
        0 <= width,
    ensures
        aligned_stride_spec(width) >= width * 4,
        aligned_stride_spec(width) % row_alignment() == 0,
        aligned_stride_spec(width) < width * 4 + row_alignment(),
{
}

/// The composite buffer of a well-formed canvas is a grid.
pub proof fn lemma_wf_grid(v: CanvasView)
    requires
        v.wf(),
    ensures
        is_grid(v.pixels.len() as int, v.stride, v.width, v.height),
{
    lemma_aligned_stride(v.width);
}

/// The drawing layer of a well-formed canvas with an image is a grid
/// without padding.
pub proof fn lemma_wf_layer_grid(v: CanvasView)
    requires
        v.wf(),
        v.image_size is Some,
    ensures
        is_grid(v.layer.len() as int, 4 * v.image_width(), v.image_width(), v.image_height()),
{
    let w = v.image_width();
    let h = v.image_height();
    assert(w * h * 4 == (4 * w) * h) by (nonlinear_arith);
}

/// Loading what was extracted changes no byte of the composite buffer, so
/// extracting again gives the same tight-packed buffer.
pub proof fn lemma_load_extract_round_trip(v: CanvasView)
    requires
        v.wf(),
    ensures
        v.load_pixels(v.width, v.height, v.extract_tight_pixels()).pixels == v.pixels,
        v.load_pixels(v.width, v.height, v.extract_tight_pixels()).extract_tight_pixels()
            == v.extract_tight_pixels(),
{
    let tight = v.extract_tight_pixels();
    let f = |x: int, y: int| v.loaded(tight, x, y);
    lemma_wf_grid(v);
    assert forall|x: int, y: int| in_grid(v.width, v.height, x, y) implies #[trigger] f(x, y)
        == pixel_at(v.pixels, v.stride, x, y) by {
        let w4 = 4 * v.width;
        assert((y + 1) * w4 <= v.height * w4) by (nonlinear_arith)
            requires
                y + 1 <= v.height,
                0 <= w4,
        ;
        assert(v.height * w4 == tight_len(v.width, v.height)) by (nonlinear_arith)
            requires
                w4 == 4 * v.width,
        ;
        assert((y + 1) * w4 == y * w4 + w4) by (nonlinear_arith);
        assert(0 <= y * w4) by (nonlinear_arith)
            requires
                0 <= y,
                0 <= w4,
        ;
        lemma_index_join(w4, y, 4 * x);
        lemma_index_join(w4, y, 4 * x + 1);
        lemma_index_join(w4, y, 4 * x + 2);
        lemma_index_join(w4, y, 4 * x + 3);
        let i = offset(w4, x, y);
        assert(tight[i] == v.pixels[offset(v.stride, x, y)]);
        assert(tight[i + 1] == v.pixels[offset(v.stride, x, y) + 1]);
        assert(tight[i + 2] == v.pixels[offset(v.stride, x, y) + 2]);
        assert(tight[i + 3] == v.pixels[offset(v.stride, x, y) + 3]);
    }
    lemma_grid_map(v.pixels, v.stride, v.width, v.height, f);
    lemma_grid_ext(grid_map(v.pixels, v.stride, v.width, f), v.pixels, v.stride, v.width, v.height);
}

/// Blending an opaque colour leaves exactly that colour, whatever was
/// there: in the composite pixel, and in the drawing-layer pixel under it.
pub proof fn lemma_blend_opaque(v: CanvasView, x: int, y: int, c: Rgba)
    requires
        v.wf(),
        v.in_canvas(x, y),
        c.a == 255,
    ensures
        v.blend_pixel(x, y, c).pixel(x, y) == c,
        v.mapped(x, y) ==> v.blend_pixel(x, y, c).layer_under(x, y) == c,
{
    lemma_wf_grid(v);
    assert(blend(c, v.pixel(x, y)) == c);
    lemma_put_pixel(v.pixels, v.stride, v.width, v.height, x, y, c);
    if v.mapped(x, y) {
        lemma_wf_layer_grid(v);
        assert(blend(c, v.layer_under(x, y)) == c);
        lemma_put_pixel(
            v.layer,
            4 * v.image_width(),
            v.image_width(),
            v.image_height(),
            v.image_x(x),
            v.image_y(y),
            c,
        );
    }
}

} // verus!
