//! What the `image` crate does for this library: decoding encoded images
//! and resampling.

use vstd::prelude::*;
use crate::view::tight_len;
use crate::layer::Layer;

verus! {

/// The pixels that `image::imageops::resize` with the nearest-neighbour
/// filter gives for a tight-packed RGBA8 image of `width` by `height`
/// pixels and a new size.
pub uninterp spec fn nearest_resized(
    pixels: Seq<u8>,
    width: u32,
    height: u32,
    new_width: u32,
    new_height: u32,
) -> Seq<u8>;

/// Resamples a tight-packed RGBA8 image to a new size by
/// `image::imageops::resize` with `FilterType::Nearest`. The result is the
/// raw buffer of the image that `resize` returns, which it allocates with
/// four bytes for each pixel of the new size. The demands keep the buffer
/// lengths that `resize` computes on the way within `usize`, where it would
/// panic otherwise.
#[verifier::external_body]
fn resize_nearest(pixels: &Vec<u8>, width: u32, height: u32, new_width: u32, new_height: u32) -> (out:
    Vec<u8>)
    requires
        pixels@.len() == tight_len(width as int, height as int),
        tight_len(new_width as int, new_height as int) <= usize::MAX,
        tight_len(width as int, new_height as int) <= usize::MAX,
    ensures
        out@ == nearest_resized(pixels@, width, height, new_width, new_height),
        out@.len() == tight_len(new_width as int, new_height as int),
{
    let source = image::RgbaImage::from_raw(width, height, pixels.clone()).unwrap();
    let filter = image::imageops::FilterType::Nearest;
    image::imageops::resize(&source, new_width, new_height, filter).into_raw()
}

/// Decodes an encoded image, of a format guessed from its first bytes, to
/// RGBA8 pixels and a size: `image::ImageReader` with
/// `with_guessed_format`, `decode` and `to_rgba8`. `None` stands for any
/// failure. Nothing is claimed of what comes back.
#[verifier::external_body]
fn decode_rgba(data: &Vec<u8>) -> (out: Option<(Vec<u8>, u32, u32)>) {
    let reader = image::ImageReader::new(std::io::Cursor::new(data)).with_guessed_format().ok()?;
    let decoded = reader.decode().ok()?.to_rgba8();
    let (width, height) = decoded.dimensions();
    Some((decoded.into_raw(), width, height))
}

/// Decodes each of the given files, where there is one.
pub fn decode_all(files: &Vec<Option<Vec<u8>>>) -> (out: Vec<Option<(Vec<u8>, u32, u32)>>)
    ensures
        out@.len() == files@.len(),
        forall|i: int| 0 <= i < files@.len() && files@[i] is None ==> out@[i] is None,
{
    let mut out: Vec<Option<(Vec<u8>, u32, u32)>> = Vec::new();
    let mut i: usize = 0;
    while i < files.len()
        invariant
            i <= files@.len(),
            out@.len() == i,
            forall|j: int| 0 <= j < i && files@[j] is None ==> out@[j] is None,
        decreases files@.len() - i,
    {
        let decoded: Option<(Vec<u8>, u32, u32)> = match &files[i] {
            Some(data) => decode_rgba(data),
            None => None,
        };
        out.push(decoded);
        i += 1;
    }
    out
}

impl Layer {
    /// Whether the layer can be resampled to the given size: its pixels
    /// are exactly those of its size, and the buffers of the resampling fit
    /// in memory.
    pub open spec fn can_scale_to(&self, target_width: u32, target_height: u32) -> bool {
        &&& self.pixels@.len() == tight_len(self.width as int, self.height as int)
        &&& tight_len(target_width as int, target_height as int) <= usize::MAX
        &&& tight_len(self.width as int, target_height as int) <= usize::MAX
    }

    /// The layer at another size: itself if it has that size already, else
    /// resampled by nearest neighbour.
    pub fn scaled_to(self, target_width: u32, target_height: u32) -> (scaled: Layer)
        requires
            self.can_scale_to(target_width, target_height),
        ensures
            scaled.name == self.name,
            scaled.visible,
            scaled.width == target_width,
            scaled.height == target_height,
            scaled.pixels@ == (if self.width == target_width && self.height == target_height {
                self.pixels@
            } else {
                nearest_resized(self.pixels@, self.width, self.height, target_width, target_height)
            }),
            scaled.pixels@.len() == tight_len(target_width as int, target_height as int),
    {
        if self.width == target_width && self.height == target_height {
            return Layer::from_rgba(self.name, target_width, target_height, self.pixels);
        }
        let pixels: Vec<u8> = resize_nearest(
            &self.pixels,
            self.width,
            self.height,
            target_width,
            target_height,
        );
        Layer::from_rgba(self.name, target_width, target_height, pixels)
    }

    /// Whether `scaled_to` may be called with the given size.
    pub fn check_can_scale_to(&self, target_width: u32, target_height: u32) -> (ok: bool)
        ensures
            ok == self.can_scale_to(target_width, target_height),
    {
        assert(0 <= self.width * self.height <= 0xffff_ffff * 0xffff_ffff) by (nonlinear_arith)
            requires
                0 <= self.width <= 0xffff_ffff,
                0 <= self.height <= 0xffff_ffff,
        ;
        assert(0 <= target_width * target_height <= 0xffff_ffff * 0xffff_ffff)
            by (nonlinear_arith)
            requires
                0 <= target_width <= 0xffff_ffff,
                0 <= target_height <= 0xffff_ffff,
        ;
        assert(0 <= self.width * target_height <= 0xffff_ffff * 0xffff_ffff) by (nonlinear_arith)
            requires
                0 <= self.width <= 0xffff_ffff,
                0 <= target_height <= 0xffff_ffff,
        ;
        let have: u128 = self.width as u128 * self.height as u128 * 4;
        let want: u128 = target_width as u128 * target_height as u128 * 4;
        let between: u128 = self.width as u128 * target_height as u128 * 4;
        self.pixels.len() as u128 == have && want <= usize::MAX as u128 && between
            <= usize::MAX as u128
    }
}

} // verus!
