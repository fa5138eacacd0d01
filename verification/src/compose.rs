//! Flattening a stack of layers into one image.

use vstd::prelude::*;
use crate::pixel::Rgba;
use crate::pixel::rgba;
use crate::pixel::flatten;
use crate::pixel::over_channel;
use crate::grid::pixel_at;
use crate::grid::grid_map;
use crate::grid::grid_partial;
use crate::grid::is_grid;
use crate::grid::load_pixel;
use crate::grid::load_bytes;
use crate::grid::store_pixel;
use crate::grid::lemma_offset_bounds;
use crate::grid::lemma_grid_partial_start;
use crate::grid::lemma_grid_partial_step;
use crate::grid::lemma_grid_partial_skip;
use crate::grid::lemma_grid_partial_done;
use crate::view::tight_len;
use crate::layer::Layer;

verus! {

/// Pixel `(x, y)` of an image with one layer laid on it: where the layer
/// holds the pixel, its colour flattened onto the image; else the image.
pub open spec fn laid_pixel(image: Seq<u8>, width: int, layer: Layer, x: int, y: int) -> Rgba {
    if layer.holds(x, y) {
        flatten(layer.pixel(x, y), pixel_at(image, 4 * width, x, y))
    } else {
        pixel_at(image, 4 * width, x, y)
    }
}

/// An image of the given width with one layer laid on it. A hidden layer
/// changes nothing.
pub open spec fn lay(image: Seq<u8>, width: int, layer: Layer) -> Seq<u8> {
    if layer.visible {
        grid_map(image, 4 * width, width, |x: int, y: int| laid_pixel(image, width, layer, x, y))
    } else {
        image
    }
}

/// The first `n` layers, from bottom to top, laid on a white image.
pub open spec fn composite(width: int, height: int, layers: Seq<Layer>, n: nat) -> Seq<u8>
    decreases n,
{
    if n == 0 {
        Seq::new(tight_len(width, height) as nat, |i: int| 255u8)
    } else {
        lay(composite(width, height, layers, (n - 1) as nat), width, layers[n - 1])
    }
}

/// The truncating blend of a layer pixel onto an opaque result.
pub fn flatten_color(src: [u8; 4], dst: [u8; 4]) -> (out: [u8; 4])
    ensures
        rgba(out) == flatten(rgba(src), rgba(dst)),
{
    [
        over_channel(src[0], dst[0], src[3]),
        over_channel(src[1], dst[1], src[3]),
        over_channel(src[2], dst[2], src[3]),
        255,
    ]
}

/// Lays one visible layer on an image.
fn lay_on(image: &mut Vec<u8>, width: u32, height: u32, layer: &Layer)
    requires
        old(image)@.len() == tight_len(width as int, height as int),
        layer.visible,
    ensures
        final(image)@ == lay(old(image)@, width as int, *layer),
        final(image)@.len() == old(image)@.len(),
{
    let ghost base = image@;
    let ghost f = |x: int, y: int| laid_pixel(base, width as int, *layer, x, y);
    let total: usize = image.len();
    let max_x: u32 = if layer.width < width {
        layer.width
    } else {
        width
    };
    let max_y: u32 = if layer.height < height {
        layer.height
    } else {
        height
    };
    assert(tight_len(width as int, height as int) == (4 * width) * height) by (nonlinear_arith);
    if max_x == 0 || max_y == 0 {
        proof {
            lemma_grid_partial_start(
                base,
                4 * width,
                width as int,
                height as int,
                f,
                |x2: int, y2: int| false,
            );
            lemma_grid_partial_done(
                image@,
                base,
                4 * width,
                width as int,
                height as int,
                f,
                |x2: int, y2: int| false,
            );
        }
        return;
    }
    assert(4 * width <= (4 * width) * height) by (nonlinear_arith)
        requires
            height >= 1,
            width >= 0,
    ;
    let row: usize = 4 * width as usize;
    proof {
        lemma_grid_partial_start(
            base,
            row as int,
            width as int,
            height as int,
            f,
            |x2: int, y2: int| y2 < 0 && x2 < max_x,
        );
    }
    let mut y: u32 = 0;
    while y < max_y
        invariant
            y <= max_y <= height,
            0 < max_x <= width,
            max_x <= layer.width,
            max_y <= layer.height,
            max_x == width || max_x == layer.width,
            max_y == height || max_y == layer.height,
            row == 4 * width,
            total == base.len(),
            is_grid(base.len() as int, row as int, width as int, height as int),
            f == (|x: int, y: int| laid_pixel(base, width as int, *layer, x, y)),
            grid_partial(
                image@,
                base,
                row as int,
                width as int,
                height as int,
                f,
                |x2: int, y2: int| y2 < y && x2 < max_x,
            ),
        decreases max_y - y,
    {
        let mut x: u32 = 0;
        proof {
            lemma_grid_partial_skip(
                image@,
                base,
                row as int,
                width as int,
                height as int,
                f,
                |x2: int, y2: int| y2 < y && x2 < max_x,
                |x2: int, y2: int| (y2 < y && x2 < max_x) || (y2 == y && x2 < x),
            );
        }
        while x < max_x
            invariant
                x <= max_x,
                y < max_y <= height,
                0 < max_x <= width,
                max_x <= layer.width,
                max_y <= layer.height,
                row == 4 * width,
                total == base.len(),
                is_grid(base.len() as int, row as int, width as int, height as int),
                f == (|x: int, y: int| laid_pixel(base, width as int, *layer, x, y)),
                grid_partial(
                    image@,
                    base,
                    row as int,
                    width as int,
                    height as int,
                    f,
                    |x2: int, y2: int| (y2 < y && x2 < max_x) || (y2 == y && x2 < x),
                ),
            decreases max_x - x,
        {
            let ghost cur = image@;
            proof {
                lemma_offset_bounds(row as int, width as int, height as int, x as int, y as int);
            }
            match layer.locate(x, y) {
                Some(i) => {
                    let src: [u8; 4] = load_bytes(&layer.pixels, i);
                    let dst: [u8; 4] = load_pixel(image, row, x as usize, y as usize);
                    let out: [u8; 4] = flatten_color(src, dst);
                    store_pixel(image, row, x as usize, y as usize, out);
                    proof {
                        assert(rgba(out) == f(x as int, y as int));
                        lemma_grid_partial_step(
                            cur,
                            base,
                            row as int,
                            width as int,
                            height as int,
                            f,
                            |x2: int, y2: int| (y2 < y && x2 < max_x) || (y2 == y && x2 < x),
                            x as int,
                            y as int,
                            |x2: int, y2: int| (y2 < y && x2 < max_x) || (y2 == y && x2 < x + 1),
                        );
                    }
                },
                None => {
                    proof {
                        lemma_grid_partial_skip(
                            cur,
                            base,
                            row as int,
                            width as int,
                            height as int,
                            f,
                            |x2: int, y2: int| (y2 < y && x2 < max_x) || (y2 == y && x2 < x),
                            |x2: int, y2: int| (y2 < y && x2 < max_x) || (y2 == y && x2 < x + 1),
                        );
                    }
                },
            }
            x += 1;
        }
        proof {
            lemma_grid_partial_skip(
                image@,
                base,
                row as int,
                width as int,
                height as int,
                f,
                |x2: int, y2: int| (y2 < y && x2 < max_x) || (y2 == y && x2 < x),
                |x2: int, y2: int| y2 < y + 1 && x2 < max_x,
            );
        }
        y += 1;
    }
    proof {
        lemma_grid_partial_done(
            image@,
            base,
            row as int,
            width as int,
            height as int,
            f,
            |x2: int, y2: int| y2 < y && x2 < max_x,
        );
    }
}

/// Flattens the visible layers, from first to last, onto a white image of
/// the given size. Each layer is laid with its top-left corner at that of
/// the image and clipped to it; the result is opaque wherever a layer lies.
pub fn composite_layers(width: u32, height: u32, layers: &[Layer]) -> (image: Vec<u8>)
    requires
        tight_len(width as int, height as int) <= usize::MAX,
    ensures
        image@ == composite(width as int, height as int, layers@, layers@.len()),
        image@.len() == tight_len(width as int, height as int),
{
    assert(0 <= width * height <= tight_len(width as int, height as int)) by (nonlinear_arith);
    let size: usize = width as usize * height as usize * 4;
    let mut image: Vec<u8> = vec![255u8; size];
    assert(image@ =~= composite(width as int, height as int, layers@, 0));
    let mut n: usize = 0;
    while n < layers.len()
        invariant
            n <= layers@.len(),
            image@.len() == tight_len(width as int, height as int),
            image@ == composite(width as int, height as int, layers@, n as nat),
        decreases layers@.len() - n,
    {
        let layer: &Layer = &layers[n];
        if layer.visible {
            lay_on(&mut image, width, height, layer);
        }
        n += 1;
    }
    image
}

} // verus!
