//! Row-major RGBA8 buffers: pixel access, and the lemmas by which a loop
//! that writes one pixel at a time is shown to compute a whole buffer.
//!
//! A buffer of `height` rows has `stride` bytes per row. The first
//! `4 * width` bytes of a row are its pixels; the rest, if any, is
//! padding that no operation of this crate writes.

use vstd::prelude::*;
use vstd::arithmetic::div_mod::lemma_fundamental_div_mod;
use vstd::arithmetic::div_mod::lemma_fundamental_div_mod_converse;
use crate::pixel::Rgba;
use crate::pixel::rgba;
use crate::pixel::channel;

verus! {

/// Byte offset of pixel `(x, y)`.
pub open spec fn offset(stride: int, x: int, y: int) -> int {
    y * stride + x * 4
}

/// The pixel `(x, y)` of a buffer.
pub open spec fn pixel_at(buf: Seq<u8>, stride: int, x: int, y: int) -> Rgba {
    let i = offset(stride, x, y);
    Rgba { r: buf[i], g: buf[i + 1], b: buf[i + 2], a: buf[i + 3] }
}

/// The buffer with pixel `(x, y)` replaced.
pub open spec fn put_pixel(buf: Seq<u8>, stride: int, x: int, y: int, c: Rgba) -> Seq<u8> {
    let i = offset(stride, x, y);
    buf.update(i, c.r).update(i + 1, c.g).update(i + 2, c.b).update(i + 3, c.a)
}

/// Byte `k` of row `y`.
pub open spec fn byte_at(buf: Seq<u8>, stride: int, y: int, k: int) -> u8 {
    buf[y * stride + k]
}

/// A buffer of this length holds exactly `height` rows of `stride` bytes,
/// each wide enough for `width` pixels.
pub open spec fn is_grid(len: int, stride: int, width: int, height: int) -> bool {
    &&& 0 <= width
    &&& 0 <= height
    &&& 4 * width <= stride
    &&& len == stride * height
}

pub open spec fn in_grid(width: int, height: int, x: int, y: int) -> bool {
    0 <= x < width && 0 <= y < height
}

/// The buffer whose pixel `(x, y)` is `f(x, y)` and whose padding is that of
/// `base`.
pub open spec fn grid_map(
    base: Seq<u8>,
    stride: int,
    width: int,
    f: spec_fn(int, int) -> Rgba,
) -> Seq<u8> {
    Seq::new(
        base.len(),
        |i: int|
            {
                let y = i / stride;
                let k = i % stride;
                if k < 4 * width {
                    channel(f(k / 4, y), k % 4)
                } else {
                    base[i]
                }
            },
    )
}

/// `buf` holds `f` on the pixels that are `done`, and is `base` elsewhere.
pub open spec fn grid_partial(
    buf: Seq<u8>,
    base: Seq<u8>,
    stride: int,
    width: int,
    height: int,
    f: spec_fn(int, int) -> Rgba,
    done: spec_fn(int, int) -> bool,
) -> bool {
    &&& buf.len() == base.len()
    &&& forall|x: int, y: int|
        in_grid(width, height, x, y) ==> #[trigger] pixel_at(buf, stride, x, y) == (if done(x, y) {
            f(x, y)
        } else {
            pixel_at(base, stride, x, y)
        })
    &&& forall|y: int, k: int|
        0 <= y < height && 4 * width <= k < stride ==> #[trigger] byte_at(buf, stride, y, k)
            == byte_at(base, stride, y, k)
}

/// Rows do not overlap: row `y1` ends before row `y2` begins.
pub proof fn lemma_row_order(stride: int, y1: int, y2: int)
    by (nonlinear_arith)
    requires
        0 <= stride,
        y1 < y2,
    ensures
        y1 * stride + stride <= y2 * stride,
{
}

/// The four bytes of a pixel of the grid lie inside the buffer.
pub proof fn lemma_offset_bounds(stride: int, width: int, height: int, x: int, y: int)
    requires
        0 <= 4 * width <= stride,
        in_grid(width, height, x, y),
    ensures
        0 <= y * stride,
        0 <= offset(stride, x, y),
        offset(stride, x, y) + 4 <= y * stride + stride,
        y * stride + stride <= stride * height,
{
    assert(0 <= y * stride) by (nonlinear_arith)
        requires
            0 <= y,
            0 <= stride,
    ;
    if y + 1 < height {
        lemma_row_order(stride, y, height);
    }
    assert(height * stride == stride * height) by (nonlinear_arith);
    assert((y + 1) * stride == y * stride + stride) by (nonlinear_arith);
}

/// Row and column of a byte, from its index.
pub proof fn lemma_index_split(stride: int, height: int, i: int)
    requires
        0 <= height,
        0 < stride,
        0 <= i < stride * height,
    ensures
        0 <= i / stride < height,
        0 <= i % stride < stride,
        i == (i / stride) * stride + i % stride,
{
    lemma_fundamental_div_mod(i, stride);
    let q = i / stride;
    let r = i % stride;
    assert(stride * q == q * stride) by (nonlinear_arith);
    assert(0 <= q < height) by (nonlinear_arith)
        requires
            i == q * stride + r,
            0 <= r < stride,
            0 <= i < stride * height,
            0 < stride,
    ;
}

/// Row and column of the byte at a given place.
pub proof fn lemma_index_join(stride: int, y: int, k: int)
    requires
        0 <= k < stride,
    ensures
        (y * stride + k) / stride == y,
        (y * stride + k) % stride == k,
{
    lemma_fundamental_div_mod_converse(y * stride + k, stride, y, k);
}

/// Writing one pixel changes that pixel and nothing else.
pub proof fn lemma_put_pixel(
    buf: Seq<u8>,
    stride: int,
    width: int,
    height: int,
    x: int,
    y: int,
    c: Rgba,
)
    requires
        is_grid(buf.len() as int, stride, width, height),
        in_grid(width, height, x, y),
    ensures
        put_pixel(buf, stride, x, y, c).len() == buf.len(),
        pixel_at(put_pixel(buf, stride, x, y, c), stride, x, y) == c,
        forall|x2: int, y2: int|
            in_grid(width, height, x2, y2) && !(x2 == x && y2 == y) ==> #[trigger] pixel_at(
                put_pixel(buf, stride, x, y, c),
                stride,
                x2,
                y2,
            ) == pixel_at(buf, stride, x2, y2),
        forall|y2: int, k: int|
            0 <= y2 < height && 4 * width <= k < stride ==> #[trigger] byte_at(
                put_pixel(buf, stride, x, y, c),
                stride,
                y2,
                k,
            ) == byte_at(buf, stride, y2, k),
{
    let out = put_pixel(buf, stride, x, y, c);
    lemma_offset_bounds(stride, width, height, x, y);
    assert forall|x2: int, y2: int|
        in_grid(width, height, x2, y2) && !(x2 == x && y2 == y) implies #[trigger] pixel_at(
        out,
        stride,
        x2,
        y2,
    ) == pixel_at(buf, stride, x2, y2) by {
        lemma_offset_bounds(stride, width, height, x2, y2);
        if y2 < y {
            lemma_row_order(stride, y2, y);
        } else if y < y2 {
            lemma_row_order(stride, y, y2);
        }
    }
    assert forall|y2: int, k: int|
        0 <= y2 < height && 4 * width <= k < stride implies #[trigger] byte_at(out, stride, y2, k)
        == byte_at(buf, stride, y2, k) by {
        if y2 < y {
            lemma_row_order(stride, y2, y);
        } else if y < y2 {
            lemma_row_order(stride, y, y2);
        }
        if y2 + 1 < height {
            lemma_row_order(stride, y2, height);
        }
        assert(height * stride == stride * height) by (nonlinear_arith);
        assert((y2 + 1) * stride == y2 * stride + stride) by (nonlinear_arith);
        assert(0 <= y2 * stride) by (nonlinear_arith)
            requires
                0 <= y2,
                0 <= stride,
        ;
        let i = offset(stride, x, y);
        let j = y2 * stride + k;
        assert(0 <= j < buf.len());
        assert(j < i || j >= i + 4);
        assert(out[j] == buf[j]);
    }
}

/// Two buffers of one shape that agree on every pixel and on the padding are
/// the same buffer.
pub proof fn lemma_grid_ext(a: Seq<u8>, b: Seq<u8>, stride: int, width: int, height: int)
    requires
        is_grid(a.len() as int, stride, width, height),
        a.len() == b.len(),
        forall|x: int, y: int|
            in_grid(width, height, x, y) ==> #[trigger] pixel_at(a, stride, x, y) == pixel_at(
                b,
                stride,
                x,
                y,
            ),
        forall|y: int, k: int|
            0 <= y < height && 4 * width <= k < stride ==> #[trigger] byte_at(a, stride, y, k)
                == byte_at(b, stride, y, k),
    ensures
        a == b,
{
    assert forall|i: int| 0 <= i < a.len() implies a[i] == b[i] by {
        if stride == 0 {
            assert(stride * height == 0) by (nonlinear_arith)
                requires
                    stride == 0,
            ;
        } else {
            lemma_index_split(stride, height, i);
            let y = i / stride;
            let k = i % stride;
            if k < 4 * width {
                let x = k / 4;
                assert(in_grid(width, height, x, y));
                assert(pixel_at(a, stride, x, y) == pixel_at(b, stride, x, y));
                assert(i == offset(stride, x, y) + k % 4);
            } else {
                assert(byte_at(a, stride, y, k) == byte_at(b, stride, y, k));
            }
        }
    }
    assert(a =~= b);
}

/// What `grid_map` holds at each pixel and in the padding.
pub proof fn lemma_grid_map(
    base: Seq<u8>,
    stride: int,
    width: int,
    height: int,
    f: spec_fn(int, int) -> Rgba,
)
    requires
        is_grid(base.len() as int, stride, width, height),
    ensures
        grid_map(base, stride, width, f).len() == base.len(),
        forall|x: int, y: int|
            in_grid(width, height, x, y) ==> #[trigger] pixel_at(
                grid_map(base, stride, width, f),
                stride,
                x,
                y,
            ) == f(x, y),
        forall|y: int, k: int|
            0 <= y < height && 4 * width <= k < stride ==> #[trigger] byte_at(
                grid_map(base, stride, width, f),
                stride,
                y,
                k,
            ) == byte_at(base, stride, y, k),
{
    let out = grid_map(base, stride, width, f);
    assert forall|x: int, y: int| in_grid(width, height, x, y) implies #[trigger] pixel_at(
        out,
        stride,
        x,
        y,
    ) == f(x, y) by {
        lemma_offset_bounds(stride, width, height, x, y);
        lemma_index_join(stride, y, 4 * x);
        lemma_index_join(stride, y, 4 * x + 1);
        lemma_index_join(stride, y, 4 * x + 2);
        lemma_index_join(stride, y, 4 * x + 3);
        let i = offset(stride, x, y);
        assert(out[i] == f(x, y).r);
        assert(out[i + 1] == f(x, y).g);
        assert(out[i + 2] == f(x, y).b);
        assert(out[i + 3] == f(x, y).a);
    }
    assert forall|y: int, k: int|
        0 <= y < height && 4 * width <= k < stride implies #[trigger] byte_at(out, stride, y, k)
        == byte_at(base, stride, y, k) by {
        lemma_index_join(stride, y, k);
        if y + 1 < height {
            lemma_row_order(stride, y, height);
        }
        assert(height * stride == stride * height) by (nonlinear_arith);
        assert(0 <= y * stride) by (nonlinear_arith)
            requires
                0 <= y,
                0 <= stride,
        ;
        assert((y + 1) * stride == y * stride + stride) by (nonlinear_arith);
    }
}

/// Nothing has been written yet.
pub proof fn lemma_grid_partial_start(
    base: Seq<u8>,
    stride: int,
    width: int,
    height: int,
    f: spec_fn(int, int) -> Rgba,
    done: spec_fn(int, int) -> bool,
)
    requires
        forall|x: int, y: int| in_grid(width, height, x, y) ==> !#[trigger] done(x, y),
    ensures
        grid_partial(base, base, stride, width, height, f, done),
{
}

/// One more pixel has been written.
pub proof fn lemma_grid_partial_step(
    buf: Seq<u8>,
    base: Seq<u8>,
    stride: int,
    width: int,
    height: int,
    f: spec_fn(int, int) -> Rgba,
    done: spec_fn(int, int) -> bool,
    x: int,
    y: int,
    next: spec_fn(int, int) -> bool,
)
    requires
        is_grid(buf.len() as int, stride, width, height),
        in_grid(width, height, x, y),
        grid_partial(buf, base, stride, width, height, f, done),
        forall|x2: int, y2: int|
            in_grid(width, height, x2, y2) ==> (#[trigger] next(x2, y2) <==> (done(x2, y2) || (x2
                == x && y2 == y))),
    ensures
        grid_partial(put_pixel(buf, stride, x, y, f(x, y)), base, stride, width, height, f, next),
{
    lemma_put_pixel(buf, stride, width, height, x, y, f(x, y));
    let out = put_pixel(buf, stride, x, y, f(x, y));
    assert forall|x2: int, y2: int| in_grid(width, height, x2, y2) implies #[trigger] pixel_at(
        out,
        stride,
        x2,
        y2,
    ) == (if next(x2, y2) {
        f(x2, y2)
    } else {
        pixel_at(base, stride, x2, y2)
    }) by {
        if !(x2 == x && y2 == y) {
            assert(pixel_at(out, stride, x2, y2) == pixel_at(buf, stride, x2, y2));
        }
    }
}

/// A pixel whose value is already right counts as written.
pub proof fn lemma_grid_partial_skip(
    buf: Seq<u8>,
    base: Seq<u8>,
    stride: int,
    width: int,
    height: int,
    f: spec_fn(int, int) -> Rgba,
    done: spec_fn(int, int) -> bool,
    next: spec_fn(int, int) -> bool,
)
    requires
        grid_partial(buf, base, stride, width, height, f, done),
        forall|x2: int, y2: int|
            in_grid(width, height, x2, y2) && #[trigger] done(x2, y2) ==> next(x2, y2),
        forall|x2: int, y2: int|
            in_grid(width, height, x2, y2) && #[trigger] next(x2, y2) && !done(x2, y2) ==> f(
                x2,
                y2,
            ) == pixel_at(base, stride, x2, y2),
    ensures
        grid_partial(buf, base, stride, width, height, f, next),
{
    assert forall|x2: int, y2: int| in_grid(width, height, x2, y2) implies #[trigger] pixel_at(
        buf,
        stride,
        x2,
        y2,
    ) == (if next(x2, y2) {
        f(x2, y2)
    } else {
        pixel_at(base, stride, x2, y2)
    }) by {
        if done(x2, y2) {
            assert(next(x2, y2));
        } else if next(x2, y2) {
            assert(f(x2, y2) == pixel_at(base, stride, x2, y2));
        }
    }
}

/// The same partial buffer, described by another function and another set
/// of written pixels that ask for the same value at every pixel.
pub proof fn lemma_grid_partial_recast(
    buf: Seq<u8>,
    base: Seq<u8>,
    stride: int,
    width: int,
    height: int,
    f: spec_fn(int, int) -> Rgba,
    done: spec_fn(int, int) -> bool,
    f2: spec_fn(int, int) -> Rgba,
    done2: spec_fn(int, int) -> bool,
)
    requires
        grid_partial(buf, base, stride, width, height, f, done),
        forall|x: int, y: int|
            in_grid(width, height, x, y) && #[trigger] done2(x, y) ==> done(x, y) && f2(x, y) == f(
                x,
                y,
            ),
        forall|x: int, y: int|
            in_grid(width, height, x, y) && #[trigger] done(x, y) ==> done2(x, y),
    ensures
        grid_partial(buf, base, stride, width, height, f2, done2),
{
    assert forall|x: int, y: int| in_grid(width, height, x, y) implies #[trigger] pixel_at(
        buf,
        stride,
        x,
        y,
    ) == (if done2(x, y) {
        f2(x, y)
    } else {
        pixel_at(base, stride, x, y)
    }) by {
        if done2(x, y) {
            assert(done(x, y));
        } else if done(x, y) {
            assert(done2(x, y));
        }
    }
}

/// Every pixel has been written, or needed no writing.
pub proof fn lemma_grid_partial_done(
    buf: Seq<u8>,
    base: Seq<u8>,
    stride: int,
    width: int,
    height: int,
    f: spec_fn(int, int) -> Rgba,
    done: spec_fn(int, int) -> bool,
)
    requires
        is_grid(base.len() as int, stride, width, height),
        grid_partial(buf, base, stride, width, height, f, done),
        forall|x: int, y: int|
            in_grid(width, height, x, y) && !#[trigger] done(x, y) ==> f(x, y) == pixel_at(
                base,
                stride,
                x,
                y,
            ),
    ensures
        buf == grid_map(base, stride, width, f),
{
    lemma_grid_map(base, stride, width, height, f);
    let out = grid_map(base, stride, width, f);
    assert forall|x: int, y: int| in_grid(width, height, x, y) implies #[trigger] pixel_at(
        buf,
        stride,
        x,
        y,
    ) == pixel_at(out, stride, x, y) by {
        if !done(x, y) {
        }
    }
    lemma_grid_ext(buf, out, stride, width, height);
}

/// Reads pixel `(x, y)`.
pub fn load_pixel(buf: &Vec<u8>, stride: usize, x: usize, y: usize) -> (c: [u8; 4])
    requires
        y * stride + x * 4 + 4 <= buf.len(),
    ensures
        rgba(c) == pixel_at(buf@, stride as int, x as int, y as int),
{
    assert(0 <= y * stride) by (nonlinear_arith)
        requires
            0 <= y,
            0 <= stride,
    ;
    let i: usize = y * stride + x * 4;
    [buf[i], buf[i + 1], buf[i + 2], buf[i + 3]]
}

/// Writes pixel `(x, y)`.
pub fn store_pixel(buf: &mut Vec<u8>, stride: usize, x: usize, y: usize, color: [u8; 4])
    requires
        y * stride + x * 4 + 4 <= old(buf).len(),
    ensures
        final(buf)@ == put_pixel(old(buf)@, stride as int, x as int, y as int, rgba(color)),
{
    assert(0 <= y * stride) by (nonlinear_arith)
        requires
            0 <= y,
            0 <= stride,
    ;
    let i: usize = y * stride + x * 4;
    buf[i] = color[0];
    buf[i + 1] = color[1];
    buf[i + 2] = color[2];
    buf[i + 3] = color[3];
}

/// Reads the pixel whose first byte is at index `i`.
pub fn load_bytes(buf: &Vec<u8>, i: usize) -> (c: [u8; 4])
    requires
        i + 4 <= buf.len(),
    ensures
        rgba(c) == (Rgba { r: buf@[i as int], g: buf@[i + 1], b: buf@[i + 2], a: buf@[i + 3] }),
{
    [buf[i], buf[i + 1], buf[i + 2], buf[i + 3]]
}

/// Writes the pixel whose first byte is at index `i`.
pub fn store_bytes(buf: &mut Vec<u8>, i: usize, color: [u8; 4])
    requires
        i + 4 <= old(buf).len(),
    ensures
        final(buf)@ == old(buf)@.update(i as int, color[0]).update(i + 1, color[1]).update(
            i + 2,
            color[2],
        ).update(i + 3, color[3]),
{
    buf[i] = color[0];
    buf[i + 1] = color[1];
    buf[i + 2] = color[2];
    buf[i + 3] = color[3];
}

} // verus!
