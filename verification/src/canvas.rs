//! The canvas: the composite buffer, the loaded image with its pan and zoom,
//! and the drawing layer.

use vstd::prelude::*;
use crate::pixel::rgba;
use crate::pixel::blend_channel;
use crate::pixel::blend;
use crate::pixel::over;
use crate::pixel::over_channel;
use crate::pixel::Rgba;
use crate::grid::load_pixel;
use crate::grid::store_pixel;
use crate::grid::pixel_at;
use crate::grid::lemma_offset_bounds;
use crate::grid::is_grid;
use crate::grid::grid_map;
use crate::grid::grid_partial;
use crate::grid::lemma_grid_partial_step;
use crate::grid::lemma_grid_partial_skip;
use crate::grid::lemma_grid_partial_done;
use crate::grid::lemma_index_join;
use crate::grid::lemma_grid_partial_start;
use vstd::slice::slice_to_vec;
use crate::view::Zoom;
use crate::view::CanvasView;
use crate::view::aligned_stride_spec;
use crate::view::image_coord;
use crate::view::tight_len;
use crate::view::lemma_aligned_stride;
use crate::view::lemma_wf_grid;
use crate::view::lemma_wf_layer_grid;

verus! {

/// The row alignment that the presentation layer demands of a buffer it
/// copies to a texture: `wgpu::COPY_BYTES_PER_ROW_ALIGNMENT`, which wgpu
/// defines as 256.
#[verifier::external_body]
fn copy_row_alignment() -> (align: u32)
    ensures
        align == 256,
{
    wgpu::COPY_BYTES_PER_ROW_ALIGNMENT
}

/// The row stride of a composite buffer `width` pixels wide.
pub fn aligned_stride(width: u32) -> (stride: usize)
    requires
        aligned_stride_spec(width as int) <= usize::MAX,
    ensures
        stride == aligned_stride_spec(width as int),
        stride >= width * 4,
        stride % 256 == 0,
{
    proof {
        lemma_aligned_stride(width as int);
    }
    let row: usize = width as usize * 4;
    let align: usize = copy_row_alignment() as usize;
    (row + (align - 1)) / align * align
}

impl Zoom {
    /// No magnification: one canvas pixel per image pixel.
    pub fn unit() -> (zoom: Zoom)
        ensures
            zoom == (Zoom { num: 1, den: 1 }),
    {
        Zoom { num: 1, den: 1 }
    }

    /// Takes every common factor `p` out of the two numbers.
    fn stripped(self, p: u64) -> (out: Zoom)
        requires
            p >= 2,
        ensures
            out == self.strip(p),
    {
        let mut out: Zoom = self;
        while out.num > 0 && out.num % p == 0 && out.den % p == 0
            invariant
                p >= 2,
                out.strip(p) == self.strip(p),
            decreases out.num,
        {
            proof {
                vstd::arithmetic::div_mod::lemma_div_decreases(out.num as int, p as int);
            }
            out = Zoom { num: out.num / p, den: out.den / p };
        }
        out
    }

    /// The zoom times `mul / div`, held to a tenth at least and 5 at most.
    fn step(self, mul: u64, div: u64) -> (out: Zoom)
        ensures
            out == self.stepped(mul, div),
    {
        let num: Option<u64> = self.num.checked_mul(mul);
        let den: Option<u64> = self.den.checked_mul(div);
        match (num, den) {
            (Some(n), Some(d)) => {
                match (n.checked_mul(10), d.checked_mul(5)) {
                    (Some(n10), Some(d5)) => {
                        if n >= d5 {
                            Zoom { num: 5, den: 1 }
                        } else if n10 <= d {
                            Zoom { num: 1, den: 10 }
                        } else {
                            (Zoom { num: n, den: d }).stripped(2).stripped(5)
                        }
                    },
                    _ => self,
                }
            },
            _ => self,
        }
    }

    /// One step in: a quarter more, at most 5.
    pub fn zoom_in(self) -> (out: Zoom)
        ensures
            out == self.zoomed_in(),
    {
        self.step(5, 4)
    }

    /// One step out: a fifth less, at least a tenth.
    pub fn zoom_out(self) -> (out: Zoom)
        ensures
            out == self.zoomed_out(),
    {
        self.step(4, 5)
    }
}

/// Taking common factors out keeps a zoom positive and its ratio.
pub proof fn lemma_strip(z: Zoom, p: u64)
    requires
        z.valid(),
    ensures
        z.strip(p).valid(),
        z.strip(p).same_ratio(z),
    decreases z.num,
{
    if p >= 2 && z.num > 0 && z.num % p == 0 && z.den % p == 0 {
        let next = Zoom { num: z.num / p, den: z.den / p };
        let a = (z.num / p) as int;
        let b = (z.den / p) as int;
        assert(z.num == a * p && z.den == b * p) by {
            vstd::arithmetic::div_mod::lemma_fundamental_div_mod(z.num as int, p as int);
            vstd::arithmetic::div_mod::lemma_fundamental_div_mod(z.den as int, p as int);
            assert(p * a == a * p) by (nonlinear_arith);
            assert(p * b == b * p) by (nonlinear_arith);
        }
        assert(a > 0 && b > 0) by (nonlinear_arith)
            requires
                a * p > 0,
                b * p > 0,
                p >= 2,
                a >= 0,
                b >= 0,
        ;
        vstd::arithmetic::div_mod::lemma_div_decreases(z.num as int, p as int);
        lemma_strip(next, p);
        let out = next.strip(p);
        assert(out.num * z.den == z.num * out.den) by (nonlinear_arith)
            requires
                out.num * b == a * out.den,
                z.num == a * p,
                z.den == b * p,
        ;
    }
}

/// A step of zooming leaves a positive zoom, between a tenth and 5 where
/// it started there, of the ratio that the step asks for.
pub proof fn lemma_stepped(z: Zoom, mul: u64, div: u64)
    requires
        z.valid(),
        mul > 0,
        div > 0,
    ensures
        z.stepped(mul, div).valid(),
        z.stepped(mul, div) == z || z.stepped(mul, div) == (Zoom { num: 5, den: 1 }) || z.stepped(
            mul,
            div,
        ) == (Zoom { num: 1, den: 10 }) || z.stepped(mul, div).num * (z.den * div) == (z.num
            * mul) * z.stepped(mul, div).den,
{
    if !(z.num * mul > u64::MAX || z.den * div > u64::MAX || z.den * div * 5 > u64::MAX || z.num
        * mul * 10 > u64::MAX) {
        assert(z.num * mul > 0 && z.den * div > 0) by (nonlinear_arith)
            requires
                z.num > 0,
                z.den > 0,
                mul > 0,
                div > 0,
        ;
        let raw = Zoom { num: (z.num * mul) as u64, den: (z.den * div) as u64 };
        lemma_strip(raw, 2);
        lemma_strip(raw.strip(2), 5);
        let mid = raw.strip(2);
        let out = mid.strip(5);
        assert(out.num * raw.den == raw.num * out.den) by (nonlinear_arith)
            requires
                out.num * mid.den == mid.num * out.den,
                mid.num * raw.den == raw.num * mid.den,
                mid.num > 0,
                mid.den > 0,
        ;
    }
}

/// Maps a canvas coordinate to image space on one axis. Gives the image
/// coordinate if it lies in `0..limit`.
pub fn map_coord(c: u32, zoom: Zoom, pan: i32, limit: u32) -> (mapped: Option<u32>)
    requires
        zoom.num > 0,
    ensures
        mapped == (if 0 <= image_coord(c as int, zoom, pan as int) < limit {
            Some(image_coord(c as int, zoom, pan as int) as u32)
        } else {
            None
        }),
{
    assert(0 <= c * zoom.den <= 0xffff_ffff * 0xffff_ffff_ffff_ffff) by (nonlinear_arith)
        requires
            0 <= c <= 0xffff_ffff,
            0 <= zoom.den <= 0xffff_ffff_ffff_ffff,
    ;
    let scaled: u128 = c as u128 * zoom.den as u128;
    let q: u128 = scaled / zoom.num as u128;
    let r: i128 = q as i128 - pan as i128;
    if 0 <= r && r < limit as i128 {
        Some(r as u32)
    } else {
        None
    }
}

/// One way of recomputing every pixel of the composite buffer.
pub enum Pass<'a> {
    /// Re-sample the loaded image.
    Backdrop,
    /// Lay the drawing layer over what is there.
    Composite,
    /// Copy from a tight-packed buffer.
    Load(&'a Vec<u8>),
    /// Copy what another canvas shows at the same place.
    Keep(&'a Canvas),
}

/// What a pass leaves at pixel `(x, y)`.
pub open spec fn pass_value(v: CanvasView, pass: Pass, x: int, y: int) -> Rgba {
    match pass {
        Pass::Backdrop => v.background(x, y),
        Pass::Composite => v.composited(x, y),
        Pass::Load(tight) => v.loaded(tight@, x, y),
        Pass::Keep(other) => v.kept(other@, x, y),
    }
}

/// Whether a pass can run: a canvas that it copies from is well-formed.
pub open spec fn pass_ready(pass: Pass) -> bool {
    pass matches Pass::Keep(other) ==> other.wf()
}

/// A paint surface.
pub struct Canvas {
    /// Size of the composite buffer, in pixels.
    pub width: u32,
    pub height: u32,
    /// Bytes per row of the composite buffer.
    pub stride: usize,
    /// The composite buffer, the only one that is displayed.
    pub pixels: Vec<u8>,
    /// Set by every operation that changes the canvas; cleared by whoever
    /// has displayed it.
    pub dirty: bool,
    pub loaded_image_size: Option<(u32, u32)>,
    /// The loaded image, tight-packed, kept for re-rendering.
    pub loaded_image_data: Option<Vec<u8>>,
    pub zoom_scale: Zoom,
    /// What the user has drawn, tight-packed, in image space. Alpha 0 marks
    /// an untouched pixel.
    pub drawing_layer: Vec<u8>,
    pub pan_offset: (i32, i32),
}

impl View for Canvas {
    type V = CanvasView;

    open spec fn view(&self) -> CanvasView {
        CanvasView {
            width: self.width as int,
            height: self.height as int,
            stride: self.stride as int,
            pixels: self.pixels@,
            dirty: self.dirty,
            image_size: match self.loaded_image_size {
                Some((w, h)) => Some((w as int, h as int)),
                None => None,
            },
            image_data: match self.loaded_image_data {
                Some(data) => Some(data@),
                None => None,
            },
            zoom: self.zoom_scale,
            layer: self.drawing_layer@,
            pan: (self.pan_offset.0 as int, self.pan_offset.1 as int),
        }
    }
}

impl Canvas {
    /// The invariant that every operation keeps.
    pub open spec fn wf(&self) -> bool {
        self@.wf()
    }

    /// A white canvas without an image.
    pub fn new(width: u32, height: u32) -> (canvas: Canvas)
        requires
            aligned_stride_spec(width as int) <= usize::MAX,
            aligned_stride_spec(width as int) * height <= usize::MAX,
        ensures
            canvas.wf(),
            canvas@ == CanvasView::blank(width as int, height as int),
    {
        proof {
            lemma_aligned_stride(width as int);
        }
        let stride: usize = aligned_stride(width);
        let pixels: Vec<u8> = vec![255u8; stride * height as usize];
        let canvas = Canvas {
            width,
            height,
            stride,
            pixels,
            dirty: false,
            loaded_image_size: None,
            loaded_image_data: None,
            zoom_scale: Zoom::unit(),
            drawing_layer: Vec::new(),
            pan_offset: (0, 0),
        };
        assert(canvas@.pixels =~= CanvasView::blank(width as int, height as int).pixels);
        assert(canvas@.layer =~= Seq::empty());
        canvas
    }

    /// A canvas of another size that shows, in its top-left corner, what
    /// this one shows there, and is white elsewhere. The image and what was
    /// drawn on it are not taken along.
    pub fn resized(&self, width: u32, height: u32) -> (canvas: Canvas)
        requires
            self.wf(),
            aligned_stride_spec(width as int) <= usize::MAX,
            aligned_stride_spec(width as int) * height <= usize::MAX,
        ensures
            canvas.wf(),
            canvas@ == self@.resized(width as int, height as int),
    {
        let mut canvas = Canvas::new(width, height);
        let ghost blank = canvas@;
        canvas.run_pass(&Pass::Keep(self));
        canvas.dirty = true;
        assert(canvas@.pixels == self@.resized(width as int, height as int).pixels) by {
            assert((|x: int, y: int| pass_value(blank, Pass::Keep(self), x, y)) =~= (|
                x: int,
                y: int,
            | blank.kept(self@, x, y)));
        }
        canvas
    }

    /// Whether a canvas of the given size fits in memory, as `new` and
    /// `resized` demand.
    pub fn size_fits(width: u32, height: u32) -> (fits: bool)
        ensures
            fits == (aligned_stride_spec(width as int) <= usize::MAX && aligned_stride_spec(
                width as int,
            ) * height <= usize::MAX),
    {
        proof {
            lemma_aligned_stride(width as int);
        }
        let stride: u128 = (width as u128 * 4 + 255) / 256 * 256;
        assert(0 <= stride * height <= 0x4_0000_0100 * 0xffff_ffff) by (nonlinear_arith)
            requires
                0 <= stride <= 0x4_0000_0100,
                0 <= height <= 0xffff_ffff,
        ;
        stride <= usize::MAX as u128 && stride * height as u128 <= usize::MAX as u128
    }

    /// Whether the invariant holds, for callers that set fields directly.
    pub fn check_wf(&self) -> (ok: bool)
        ensures
            ok == self.wf(),
    {
        if self.zoom_scale.num == 0 || self.zoom_scale.den == 0 {
            return false;
        }
        if self.loaded_image_size.is_some() != self.loaded_image_data.is_some() {
            return false;
        }
        proof {
            lemma_aligned_stride(self.width as int);
        }
        let wanted: u64 = (self.width as u64 * 4 + 255) / 256 * 256;
        if self.stride as u64 != wanted {
            return false;
        }
        assert(0 <= self.stride * self.height <= 0xffff_ffff_ffff_ffff * 0xffff_ffff)
            by (nonlinear_arith)
            requires
                0 <= self.stride <= 0xffff_ffff_ffff_ffff,
                0 <= self.height <= 0xffff_ffff,
        ;
        let bytes: u128 = self.stride as u128 * self.height as u128;
        if self.pixels.len() as u128 != bytes {
            return false;
        }
        match self.loaded_image_size {
            Some((w, h)) => {
                assert(0 <= w * h <= 0xffff_ffff * 0xffff_ffff) by (nonlinear_arith)
                    requires
                        0 <= w <= 0xffff_ffff,
                        0 <= h <= 0xffff_ffff,
                ;
                let need: u128 = w as u128 * h as u128 * 4;
                self.drawing_layer.len() as u128 == need
            },
            None => true,
        }
    }

    /// The image pixel under canvas pixel `(x, y)`, if there is one.
    pub fn canvas_to_image(&self, x: u32, y: u32) -> (at: Option<(u32, u32)>)
        requires
            self.zoom_scale.num > 0,
        ensures
            at == (if self@.mapped(x as int, y as int) {
                Some((self@.image_x(x as int) as u32, self@.image_y(y as int) as u32))
            } else {
                None
            }),
    {
        match self.loaded_image_size {
            Some((w, h)) => {
                match map_coord(x, self.zoom_scale, self.pan_offset.0, w) {
                    Some(ix) => match map_coord(y, self.zoom_scale, self.pan_offset.1, h) {
                        Some(iy) => Some((ix, iy)),
                        None => None,
                    },
                    None => None,
                }
            },
            None => None,
        }
    }

    /// Overwrites one composite pixel. Does nothing outside the canvas.
    pub fn set_pixel(&mut self, x: u32, y: u32, color: [u8; 4])
        requires
            old(self).wf(),
        ensures
            final(self).wf(),
            final(self)@ == old(self)@.set_pixel(x as int, y as int, rgba(color)),
    {
        if x >= self.width || y >= self.height {
            return;
        }
        proof {
            lemma_wf_grid(self@);
            lemma_offset_bounds(
                self.stride as int,
                self.width as int,
                self.height as int,
                x as int,
                y as int,
            );
        }
        store_pixel(&mut self.pixels, self.stride, x as usize, y as usize, color);
        self.dirty = true;
    }

    /// The composite pixel at canvas coordinates, or `None` outside the
    /// canvas.
    pub fn get_pixel(&self, x: u32, y: u32) -> (color: Option<[u8; 4]>)
        requires
            self.wf(),
        ensures
            color is Some <==> self@.in_canvas(x as int, y as int),
            color matches Some(c) ==> rgba(c) == self@.pixel(x as int, y as int),
    {
        if x >= self.width || y >= self.height {
            return None;
        }
        proof {
            lemma_wf_grid(self@);
            lemma_offset_bounds(
                self.stride as int,
                self.width as int,
                self.height as int,
                x as int,
                y as int,
            );
        }
        Some(load_pixel(&self.pixels, self.stride, x as usize, y as usize))
    }

    /// Blends a colour into the composite pixel `(x, y)` and, where an image
    /// pixel lies under it, into the drawing layer there. Does nothing
    /// outside the canvas.
    pub fn blend_pixel(&mut self, x: u32, y: u32, color: [u8; 4])
        requires
            old(self).wf(),
        ensures
            final(self).wf(),
            final(self)@ == old(self)@.blend_pixel(x as int, y as int, rgba(color)),
    {
        if x >= self.width || y >= self.height {
            return;
        }
        match self.canvas_to_image(x, y) {
            Some((ix, iy)) => {
                let w: u32 = self.image_width();
                proof {
                    lemma_wf_layer_grid(self@);
                    lemma_offset_bounds(
                        4 * w,
                        w as int,
                        self@.image_height(),
                        ix as int,
                        iy as int,
                    );
                }
                assert(4 * w <= tight_len(w as int, self@.image_height())) by (nonlinear_arith)
                    requires
                        self@.image_height() >= 1,
                        w >= 0,
                ;
                let bytes: usize = self.drawing_layer.len();
                assert(bytes == tight_len(w as int, self@.image_height()));
                let row: usize = 4 * w as usize;
                let under: [u8; 4] = load_pixel(&self.drawing_layer, row, ix as usize, iy as usize);
                let mixed: [u8; 4] = blend_color(color, under);
                store_pixel(&mut self.drawing_layer, row, ix as usize, iy as usize, mixed);
            },
            None => {},
        }
        proof {
            lemma_wf_grid(self@);
            lemma_offset_bounds(
                self.stride as int,
                self.width as int,
                self.height as int,
                x as int,
                y as int,
            );
        }
        let shown: [u8; 4] = load_pixel(&self.pixels, self.stride, x as usize, y as usize);
        let mixed: [u8; 4] = blend_color(color, shown);
        store_pixel(&mut self.pixels, self.stride, x as usize, y as usize, mixed);
        self.dirty = true;
    }

    /// Bytes per row of the drawing layer.
    pub(crate) fn layer_stride(&self) -> (row: usize)
        requires
            self.wf(),
            self@.image_height() >= 1,
        ensures
            row == 4 * self@.image_width(),
            self.drawing_layer@.len() <= usize::MAX,
            is_grid(
                self.drawing_layer@.len() as int,
                row as int,
                self@.image_width(),
                self@.image_height(),
            ),
    {
        let w: u32 = self.image_width();
        let bytes: usize = self.drawing_layer.len();
        proof {
            lemma_wf_layer_grid(self@);
            assert(bytes == tight_len(w as int, self@.image_height()));
            assert(4 * w <= tight_len(w as int, self@.image_height())) by (nonlinear_arith)
                requires
                    self@.image_height() >= 1,
                    w >= 0,
            ;
        }
        4 * w as usize
    }

    /// What a pass leaves at pixel `(x, y)`.
    pub(crate) fn pass_pixel(&self, pass: &Pass, x: u32, y: u32) -> (c: [u8; 4])
        requires
            self.wf(),
            self@.in_canvas(x as int, y as int),
            pass_ready(*pass),
        ensures
            rgba(c) == pass_value(self@, *pass, x as int, y as int),
    {
        proof {
            lemma_wf_grid(self@);
            lemma_offset_bounds(
                self.stride as int,
                self.width as int,
                self.height as int,
                x as int,
                y as int,
            );
        }
        let shown: [u8; 4] = load_pixel(&self.pixels, self.stride, x as usize, y as usize);
        match pass {
            Pass::Backdrop => match self.canvas_to_image(x, y) {
                Some((ix, iy)) => {
                    let row: usize = self.layer_stride();
                    proof {
                        lemma_offset_bounds(
                            row as int,
                            self@.image_width(),
                            self@.image_height(),
                            ix as int,
                            iy as int,
                        );
                    }
                    match &self.loaded_image_data {
                        Some(data) => {
                            if iy as usize * row + ix as usize * 4 + 4 <= data.len() {
                                load_pixel(data, row, ix as usize, iy as usize)
                            } else {
                                shown
                            }
                        },
                        None => shown,
                    }
                },
                None => [255, 255, 255, 255],
            },
            Pass::Composite => match self.canvas_to_image(x, y) {
                Some((ix, iy)) => {
                    let row: usize = self.layer_stride();
                    proof {
                        lemma_offset_bounds(
                            row as int,
                            self@.image_width(),
                            self@.image_height(),
                            ix as int,
                            iy as int,
                        );
                    }
                    let drawn: [u8; 4] = load_pixel(
                        &self.drawing_layer,
                        row,
                        ix as usize,
                        iy as usize,
                    );
                    over_color(drawn, shown)
                },
                None => shown,
            },
            Pass::Load(tight) => {
                let row: u128 = 4 * self.width as u128;
                assert(0 <= (y + 1) * (4 * self.width) <= 0x1_0000_0000 * 0x4_0000_0000)
                    by (nonlinear_arith)
                    requires
                        0 <= y + 1 <= 0x1_0000_0000,
                        0 <= 4 * self.width <= 0x4_0000_0000,
                ;
                if (y as u128 + 1) * row <= tight.len() as u128 {
                    proof {
                        assert(y * (4 * self.width) + 4 * self.width == (y + 1) * (4 * self.width))
                            by (nonlinear_arith);
                        assert(0 <= y * (4 * self.width)) by (nonlinear_arith)
                            requires
                                0 <= y,
                                0 <= 4 * self.width,
                        ;
                    }
                    load_pixel(tight, 4 * self.width as usize, x as usize, y as usize)
                } else {
                    shown
                }
            },
            Pass::Keep(other) => {
                match other.get_pixel(x, y) {
                    Some(c) => c,
                    None => shown,
                }
            },
        }
    }

    /// Recomputes every pixel of the composite buffer.
    pub(crate) fn run_pass(&mut self, pass: &Pass)
        requires
            old(self).wf(),
            pass_ready(*pass),
        ensures
            final(self).wf(),
            final(self)@ == (CanvasView {
                pixels: grid_map(
                    old(self)@.pixels,
                    old(self)@.stride,
                    old(self)@.width,
                    |x: int, y: int| pass_value(old(self)@, *pass, x, y),
                ),
                ..old(self)@
            }),
    {
        let ghost before = self@;
        let ghost base = self.pixels@;
        let ghost f = |x: int, y: int| pass_value(before, *pass, x, y);
        let stride: usize = self.stride;
        let width: u32 = self.width;
        let height: u32 = self.height;
        proof {
            lemma_wf_grid(self@);
        }
        let mut y: u32 = 0;
        while y < height
            invariant
                y <= height,
                before.wf(),
                pass_ready(*pass),
                before.pixels == base,
                stride == before.stride,
                width == before.width,
                height == before.height,
                self@ == (CanvasView { pixels: self.pixels@, ..before }),
                is_grid(base.len() as int, stride as int, width as int, height as int),
                f == (|x: int, y: int| pass_value(before, *pass, x, y)),
                grid_partial(
                    self.pixels@,
                    base,
                    stride as int,
                    width as int,
                    height as int,
                    f,
                    |x2: int, y2: int| y2 < y,
                ),
            decreases height - y,
        {
            let mut x: u32 = 0;
            while x < width
                invariant
                    x <= width,
                    y < height,
                    before.wf(),
                    pass_ready(*pass),
                    before.pixels == base,
                    stride == before.stride,
                    width == before.width,
                    height == before.height,
                    self@ == (CanvasView { pixels: self.pixels@, ..before }),
                    is_grid(base.len() as int, stride as int, width as int, height as int),
                    f == (|x: int, y: int| pass_value(before, *pass, x, y)),
                    grid_partial(
                        self.pixels@,
                        base,
                        stride as int,
                        width as int,
                        height as int,
                        f,
                        |x2: int, y2: int| y2 < y || (y2 == y && x2 < x),
                    ),
                decreases width - x,
            {
                let ghost cur = self.pixels@;
                assert(pixel_at(cur, stride as int, x as int, y as int) == pixel_at(
                    base,
                    stride as int,
                    x as int,
                    y as int,
                ));
                let c: [u8; 4] = self.pass_pixel(pass, x, y);
                assert(rgba(c) == f(x as int, y as int));
                proof {
                    lemma_offset_bounds(
                        stride as int,
                        width as int,
                        height as int,
                        x as int,
                        y as int,
                    );
                }
                store_pixel(&mut self.pixels, stride, x as usize, y as usize, c);
                proof {
                    lemma_grid_partial_step(
                        cur,
                        base,
                        stride as int,
                        width as int,
                        height as int,
                        f,
                        |x2: int, y2: int| y2 < y || (y2 == y && x2 < x),
                        x as int,
                        y as int,
                        |x2: int, y2: int| y2 < y || (y2 == y && x2 < x + 1),
                    );
                }
                x += 1;
            }
            proof {
                lemma_grid_partial_skip(
                    self.pixels@,
                    base,
                    stride as int,
                    width as int,
                    height as int,
                    f,
                    |x2: int, y2: int| y2 < y || (y2 == y && x2 < x),
                    |x2: int, y2: int| y2 < y + 1,
                );
            }
            y += 1;
        }
        proof {
            lemma_grid_partial_done(
                self.pixels@,
                base,
                stride as int,
                width as int,
                height as int,
                f,
                |x2: int, y2: int| y2 < y,
            );
        }
    }

    /// Copies a tight-packed buffer of the canvas's own size into the
    /// composite buffer. Rows that the buffer does not hold in full are
    /// left as they are; a buffer of another size is ignored.
    pub fn load_pixels(&mut self, width: u32, height: u32, tight_pixels: Vec<u8>)
        requires
            old(self).wf(),
        ensures
            final(self).wf(),
            final(self)@ == old(self)@.load_pixels(width as int, height as int, tight_pixels@),
    {
        if width != self.width || height != self.height {
            return;
        }
        let ghost before = self@;
        self.run_pass(&Pass::Load(&tight_pixels));
        self.dirty = true;
        assert(self@.pixels == before.load_pixels(
            width as int,
            height as int,
            tight_pixels@,
        ).pixels) by {
            assert((|x: int, y: int| pass_value(before, Pass::Load(&tight_pixels), x, y)) =~= (|
                x: int,
                y: int,
            | before.loaded(tight_pixels@, x, y)));
        }
    }

    /// Lays the drawing layer over the composite buffer.
    pub fn composite_layers(&mut self)
        requires
            old(self).wf(),
        ensures
            final(self).wf(),
            final(self)@ == old(self)@.composite_layers(),
    {
        let ghost before = self@;
        self.run_pass(&Pass::Composite);
        assert(self@.pixels == before.composite_layers().pixels) by {
            assert((|x: int, y: int| pass_value(before, Pass::Composite, x, y)) =~= (|
                x: int,
                y: int,
            | before.composited(x, y)));
        }
    }

    /// Loads an image at an offset and rebuilds the composite buffer from it
    /// and from the drawing layer. An image of another size than the one
    /// loaded before clears the drawing layer. Image data shorter than
    /// `img_width * img_height * 4` bytes is sampled as far as it reaches.
    pub fn paste_image_with_offset(
        &mut self,
        img_width: u32,
        img_height: u32,
        img_pixels: &[u8],
        offset_x: i32,
        offset_y: i32,
    )
        requires
            old(self).wf(),
            tight_len(img_width as int, img_height as int) <= usize::MAX,
        ensures
            final(self).wf(),
            final(self)@ == old(self)@.paste_image_with_offset(
                img_width as int,
                img_height as int,
                img_pixels@,
                (offset_x as int, offset_y as int),
            ),
    {
        let ghost before = self@;
        let is_new_image: bool = match self.loaded_image_size {
            Some((w, h)) => w != img_width || h != img_height,
            None => true,
        };
        self.loaded_image_size = Some((img_width, img_height));
        self.loaded_image_data = Some(slice_to_vec(img_pixels));
        self.pan_offset = (offset_x, offset_y);
        if is_new_image {
            assert(0 <= img_width * img_height <= tight_len(img_width as int, img_height as int))
                by (nonlinear_arith);
            let bytes: usize = img_width as usize * img_height as usize * 4;
            self.drawing_layer = vec![0u8; bytes];
        }
        assert(self@.layer =~= before.with_image(
            img_width as int,
            img_height as int,
            img_pixels@,
            (offset_x as int, offset_y as int),
        ).layer);
        assert(self@ == before.with_image(
            img_width as int,
            img_height as int,
            img_pixels@,
            (offset_x as int, offset_y as int),
        ));
        let ghost loaded = self@;
        self.run_pass(&Pass::Backdrop);
        assert(self@.pixels == loaded.backdrop().pixels) by {
            assert((|x: int, y: int| pass_value(loaded, Pass::Backdrop, x, y)) =~= (|
                x: int,
                y: int,
            | loaded.background(x, y)));
        }
        self.composite_layers();
        self.dirty = true;
    }

    /// Rebuilds the composite buffer from the loaded image at a new offset.
    /// Does nothing without an image.
    pub fn repan_image(&mut self, offset_x: i32, offset_y: i32)
        requires
            old(self).wf(),
        ensures
            final(self).wf(),
            final(self)@ == old(self)@.repan_image((offset_x as int, offset_y as int)),
    {
        match self.loaded_image_size {
            Some((img_w, img_h)) => {
                let bytes: usize = self.drawing_layer.len();
                let img_data: Option<Vec<u8>> = match &self.loaded_image_data {
                    Some(data) => Some(data.clone()),
                    None => None,
                };
                match img_data {
                    Some(data) => {
                        self.paste_image_with_offset(
                            img_w,
                            img_h,
                            data.as_slice(),
                            offset_x,
                            offset_y,
                        );
                    },
                    None => {},
                }
            },
            None => {},
        }
    }

    /// Loads an image at offset `(0, 0)`.
    pub fn paste_image(&mut self, img_width: u32, img_height: u32, img_pixels: &[u8])
        requires
            old(self).wf(),
            tight_len(img_width as int, img_height as int) <= usize::MAX,
        ensures
            final(self).wf(),
            final(self)@ == old(self)@.paste_image_with_offset(
                img_width as int,
                img_height as int,
                img_pixels@,
                (0, 0),
            ),
    {
        self.paste_image_with_offset(img_width, img_height, img_pixels, 0, 0);
    }

    /// The composite buffer without its padding: `width * height * 4` bytes.
    pub fn extract_tight_pixels(&self) -> (tight: Vec<u8>)
        requires
            self.wf(),
        ensures
            tight@ == self@.extract_tight_pixels(),
    {
        let width: usize = self.width as usize;
        let height: usize = self.height as usize;
        let stride: usize = self.stride;
        let ghost want = self@.extract_tight_pixels();
        proof {
            lemma_wf_grid(self@);
        }
        let total: usize = self.pixels.len();
        let mut tight: Vec<u8> = Vec::new();
        let mut y: usize = 0;
        while y < height
            invariant
                y <= height,
                self.wf(),
                total == self.pixels@.len(),
                width == self.width,
                height == self.height,
                stride == self.stride,
                want == self@.extract_tight_pixels(),
                is_grid(self.pixels@.len() as int, stride as int, width as int, height as int),
                tight@.len() == y * (4 * width),
                forall|j: int| 0 <= j < tight@.len() ==> tight@[j] == want[j],
            decreases height - y,
        {
            proof {
                assert(0 <= y * stride && y * stride + stride <= stride * height)
                    by (nonlinear_arith)
                    requires
                        0 <= y < height,
                        0 <= stride,
                ;
                assert(y * (4 * width) + 4 * width == (y + 1) * (4 * width)) by (nonlinear_arith);
                assert((y + 1) * (4 * width) <= height * (4 * width)) by (nonlinear_arith)
                    requires
                        y + 1 <= height,
                        0 <= 4 * width,
                ;
                assert(height * (4 * width) == tight_len(width as int, height as int))
                    by (nonlinear_arith);
            }
            let row: usize = y * stride;
            let mut k: usize = 0;
            while k < 4 * width
                invariant
                    k <= 4 * width,
                    y < height,
                    4 * width <= stride,
                    row == y * stride,
                    row + stride <= self.pixels@.len(),
                    total == self.pixels@.len(),
                    want == self@.extract_tight_pixels(),
                    (y + 1) * (4 * width) <= tight_len(width as int, height as int),
                    y * (4 * width) + 4 * width == (y + 1) * (4 * width),
                    width == self.width,
                    height == self.height,
                    stride == self.stride,
                    tight@.len() == y * (4 * width) + k,
                    forall|j: int| 0 <= j < tight@.len() ==> tight@[j] == want[j],
                decreases 4 * width - k,
            {
                proof {
                    lemma_index_join(4 * width as int, y as int, k as int);
                }
                tight.push(self.pixels[row + k]);
                k += 1;
            }
            y += 1;
        }
        proof {
            assert(height * (4 * width) == tight_len(width as int, height as int))
                by (nonlinear_arith);
            assert(tight@ =~= want);
        }
        tight
    }

    /// Overwrites a rectangle of the composite buffer with one colour,
    /// clipped to the canvas. An empty rectangle changes nothing.
    pub fn fill_rect(&mut self, x: u32, y: u32, w: u32, h: u32, color: [u8; 4])
        requires
            old(self).wf(),
        ensures
            final(self).wf(),
            final(self)@ == old(self)@.fill_rect(
                x as int,
                y as int,
                w as int,
                h as int,
                rgba(color),
            ),
    {
        if w == 0 || h == 0 {
            return;
        }
        let ghost before = self@;
        let ghost base = self.pixels@;
        let ghost f = |px: int, py: int|
            if CanvasView::in_rect(x as int, y as int, w as int, h as int, px, py) {
                rgba(color)
            } else {
                before.pixel(px, py)
            };
        let stride: usize = self.stride;
        let width: u32 = self.width;
        let height: u32 = self.height;
        let right: u64 = x as u64 + w as u64;
        let below: u64 = y as u64 + h as u64;
        let max_x: u32 = if right < width as u64 {
            right as u32
        } else {
            width
        };
        let max_y: u32 = if below < height as u64 {
            below as u32
        } else {
            height
        };
        proof {
            lemma_wf_grid(self@);
            lemma_grid_partial_start(
                base,
                stride as int,
                width as int,
                height as int,
                f,
                |px: int, py: int| y <= py < y && x <= px < max_x,
            );
        }
        let mut yy: u32 = y;
        while yy < max_y
            invariant
                y <= yy,
                max_y <= height,
                max_x <= width,
                max_y <= y + h,
                max_x <= x + w,
                max_y == height || max_y == y + h,
                max_x == width || max_x == x + w,
                before.wf(),
                before.pixels == base,
                stride == before.stride,
                width == before.width,
                height == before.height,
                self@ == (CanvasView { pixels: self.pixels@, ..before }),
                is_grid(base.len() as int, stride as int, width as int, height as int),
                f == (|px: int, py: int|
                    if CanvasView::in_rect(x as int, y as int, w as int, h as int, px, py) {
                        rgba(color)
                    } else {
                        before.pixel(px, py)
                    }),
                grid_partial(
                    self.pixels@,
                    base,
                    stride as int,
                    width as int,
                    height as int,
                    f,
                    |px: int, py: int| y <= py < yy && x <= px < max_x,
                ),
            decreases max_y - yy,
        {
            let mut xx: u32 = x;
            proof {
                lemma_grid_partial_skip(
                    self.pixels@,
                    base,
                    stride as int,
                    width as int,
                    height as int,
                    f,
                    |px: int, py: int| y <= py < yy && x <= px < max_x,
                    |px: int, py: int|
                        (y <= py < yy && x <= px < max_x) || (py == yy && x <= px < xx),
                );
            }
            while xx < max_x
                invariant
                    x <= xx,
                    xx <= max_x || xx == x,
                    y <= yy < max_y,
                    max_y <= height,
                    max_x <= width,
                    max_y <= y + h,
                    max_x <= x + w,
                    max_x == width || max_x == x + w,
                    before.wf(),
                    before.pixels == base,
                    stride == before.stride,
                    width == before.width,
                    height == before.height,
                    self@ == (CanvasView { pixels: self.pixels@, ..before }),
                    is_grid(base.len() as int, stride as int, width as int, height as int),
                    f == (|px: int, py: int|
                        if CanvasView::in_rect(x as int, y as int, w as int, h as int, px, py) {
                            rgba(color)
                        } else {
                            before.pixel(px, py)
                        }),
                    grid_partial(
                        self.pixels@,
                        base,
                        stride as int,
                        width as int,
                        height as int,
                        f,
                        |px: int, py: int|
                            (y <= py < yy && x <= px < max_x) || (py == yy && x <= px < xx),
                    ),
                decreases max_x - xx,
            {
                let ghost cur = self.pixels@;
                proof {
                    lemma_offset_bounds(
                        stride as int,
                        width as int,
                        height as int,
                        xx as int,
                        yy as int,
                    );
                }
                store_pixel(&mut self.pixels, stride, xx as usize, yy as usize, color);
                proof {
                    lemma_grid_partial_step(
                        cur,
                        base,
                        stride as int,
                        width as int,
                        height as int,
                        f,
                        |px: int, py: int|
                            (y <= py < yy && x <= px < max_x) || (py == yy && x <= px < xx),
                        xx as int,
                        yy as int,
                        |px: int, py: int|
                            (y <= py < yy && x <= px < max_x) || (py == yy && x <= px < xx + 1),
                    );
                }
                xx += 1;
            }
            proof {
                lemma_grid_partial_skip(
                    self.pixels@,
                    base,
                    stride as int,
                    width as int,
                    height as int,
                    f,
                    |px: int, py: int|
                        (y <= py < yy && x <= px < max_x) || (py == yy && x <= px < xx),
                    |px: int, py: int| y <= py < yy + 1 && x <= px < max_x,
                );
            }
            yy += 1;
        }
        proof {
            lemma_grid_partial_done(
                self.pixels@,
                base,
                stride as int,
                width as int,
                height as int,
                f,
                |px: int, py: int| y <= py < yy && x <= px < max_x,
            );
        }
        self.dirty = true;
    }

    /// Width of the loaded image, 0 without one.
    pub fn image_width(&self) -> (w: u32)
        ensures
            w == self@.image_width(),
    {
        match self.loaded_image_size {
            Some((w, _)) => w,
            None => 0,
        }
    }

    /// Height of the loaded image, 0 without one.
    pub fn image_height(&self) -> (h: u32)
        ensures
            h == self@.image_height(),
    {
        match self.loaded_image_size {
            Some((_, h)) => h,
            None => 0,
        }
    }
}

/// A drawing-layer pixel laid over a background pixel.
pub fn over_color(fg: [u8; 4], bg: [u8; 4]) -> (out: [u8; 4])
    ensures
        rgba(out) == over(rgba(fg), rgba(bg)),
{
    if fg[3] == 0 {
        bg
    } else {
        [
            over_channel(fg[0], bg[0], fg[3]),
            over_channel(fg[1], bg[1], fg[3]),
            over_channel(fg[2], bg[2], fg[3]),
            bg[3],
        ]
    }
}

/// The rounding blend of `color` into `dst`.
pub fn blend_color(color: [u8; 4], dst: [u8; 4]) -> (out: [u8; 4])
    ensures
        rgba(out) == blend(rgba(color), rgba(dst)),
        color[3] == 255 ==> rgba(out) == rgba(color),
{
    [
        blend_channel(color[0], dst[0], color[3]),
        blend_channel(color[1], dst[1], color[3]),
        blend_channel(color[2], dst[2], color[3]),
        blend_channel(color[3], dst[3], color[3]),
    ]
}

} // verus!
