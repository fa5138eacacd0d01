//! Layers as they are stored in a project: a name, a size, and tight-packed
//! RGBA8 pixels; and the project that lists them.

use vstd::prelude::*;
use crate::pixel::Rgba;
use crate::pixel::rgba;
use crate::pixel::channel;
use crate::pixel::transparent;
use crate::grid::offset;
use crate::grid::pixel_at;
use crate::grid::put_pixel;
use crate::grid::load_bytes;
use crate::grid::store_bytes;
use crate::view::tight_len;
use crate::text::join3;

verus! {

/// A named image, tight-packed in row-major order. Nothing ties the length
/// of `pixels` to the size: every access checks it.
#[derive(Clone, Debug)]
pub struct Layer {
    pub name: String,
    pub width: u32,
    pub height: u32,
    pub visible: bool,
    pub pixels: Vec<u8>,
}

/// Index of the pixel `(x, y)` among the pixels of a layer `width` wide.
pub open spec fn pixel_index(width: int, x: int, y: int) -> int {
    y * width + x
}

/// The byte offset of a pixel in a tight-packed buffer is four times its
/// index.
pub proof fn lemma_tight_offset(width: int, x: int, y: int)
    ensures
        offset(4 * width, x, y) == 4 * pixel_index(width, x, y),
{
    assert(y * (4 * width) == 4 * (y * width)) by (nonlinear_arith);
}

impl Layer {
    /// Whether `(x, y)` lies in the layer and `pixels` holds all four bytes
    /// of it.
    pub open spec fn holds(&self, x: int, y: int) -> bool {
        &&& 0 <= x < self.width
        &&& 0 <= y < self.height
        &&& 4 * pixel_index(self.width as int, x, y) + 3 < self.pixels@.len()
    }

    /// The pixel `(x, y)`, transparent black where the layer does not hold
    /// it.
    pub open spec fn pixel(&self, x: int, y: int) -> Rgba {
        if self.holds(x, y) {
            pixel_at(self.pixels@, 4 * self.width, x, y)
        } else {
            transparent()
        }
    }

    /// A white, visible layer.
    pub fn new(name: String, width: u32, height: u32) -> (layer: Layer)
        requires
            tight_len(width as int, height as int) <= usize::MAX,
        ensures
            layer.name == name,
            layer.width == width,
            layer.height == height,
            layer.visible,
            layer.pixels@ == Seq::new(tight_len(width as int, height as int) as nat, |i: int| 255u8),
    {
        assert(0 <= width * height <= tight_len(width as int, height as int)) by (nonlinear_arith);
        let size: usize = (width as usize) * (height as usize) * 4;
        let pixels: Vec<u8> = vec![255u8; size];
        assert(pixels@ =~= Seq::new(
            tight_len(width as int, height as int) as nat,
            |i: int| 255u8,
        ));
        Layer { name, width, height, visible: true, pixels }
    }

    /// A visible layer of the given pixels.
    pub fn from_rgba(name: String, width: u32, height: u32, pixels: Vec<u8>) -> (layer: Layer)
        ensures
            layer.name == name,
            layer.width == width,
            layer.height == height,
            layer.visible,
            layer.pixels == pixels,
    {
        Layer { name, width, height, visible: true, pixels }
    }

    /// Byte index of the pixel `(x, y)`, if the layer holds it.
    pub(crate) fn locate(&self, x: u32, y: u32) -> (at: Option<usize>)
        ensures
            at is Some <==> self.holds(x as int, y as int),
            at matches Some(i) ==> i == offset(4 * self.width, x as int, y as int) && i + 4
                <= self.pixels@.len(),
    {
        if x < self.width && y < self.height {
            proof {
                lemma_tight_offset(self.width as int, x as int, y as int);
                assert(0 <= y * self.width <= 0xffff_ffff * 0xffff_ffff) by (nonlinear_arith)
                    requires
                        0 <= y <= 0xffff_ffff,
                        0 <= self.width <= 0xffff_ffff,
                ;
            }
            let index: u64 = y as u64 * self.width as u64 + x as u64;
            let held: usize = self.pixels.len() / 4;
            if index < held as u64 {
                Some(index as usize * 4)
            } else {
                None
            }
        } else {
            None
        }
    }

    /// Overwrites the pixel `(x, y)`. Does nothing where the layer does not
    /// hold it.
    pub fn set_pixel(&mut self, x: u32, y: u32, color: [u8; 4])
        ensures
            final(self).name == old(self).name,
            final(self).width == old(self).width,
            final(self).height == old(self).height,
            final(self).visible == old(self).visible,
            final(self).pixels@ == (if old(self).holds(x as int, y as int) {
                put_pixel(old(self).pixels@, 4 * old(self).width, x as int, y as int, rgba(color))
            } else {
                old(self).pixels@
            }),
    {
        match self.locate(x, y) {
            Some(i) => {
                store_bytes(&mut self.pixels, i, color);
            },
            None => {},
        }
    }

    /// The pixel `(x, y)`, or transparent black where the layer does not
    /// hold it.
    pub fn get_pixel(&self, x: u32, y: u32) -> (color: [u8; 4])
        ensures
            rgba(color) == self.pixel(x as int, y as int),
    {
        match self.locate(x, y) {
            Some(i) => load_bytes(&self.pixels, i),
            None => [0, 0, 0, 0],
        }
    }

    /// Gives the layer a new size. The pixel bytes are kept as a flat
    /// sequence, cut or padded with 255 to the new length; they are not
    /// re-arranged.
    pub fn resize(&mut self, new_width: u32, new_height: u32)
        requires
            tight_len(new_width as int, new_height as int) <= usize::MAX,
        ensures
            final(self).name == old(self).name,
            final(self).visible == old(self).visible,
            final(self).width == new_width,
            final(self).height == new_height,
            final(self).pixels@ == Seq::new(
                tight_len(new_width as int, new_height as int) as nat,
                |i: int|
                    if i < old(self).pixels@.len() {
                        old(self).pixels@[i]
                    } else {
                        255u8
                    },
            ),
    {
        assert(0 <= new_width * new_height <= tight_len(new_width as int, new_height as int))
            by (nonlinear_arith);
        let ghost before = self.pixels@;
        let new_size: usize = (new_width as usize) * (new_height as usize) * 4;
        self.pixels.resize(new_size, 255);
        self.width = new_width;
        self.height = new_height;
        proof {
            let want = Seq::new(
                new_size as nat,
                |i: int|
                    if i < before.len() {
                        before[i]
                    } else {
                        255u8
                    },
            );
            assert forall|i: int| 0 <= i < new_size implies self.pixels@[i] == want[i] by {
                if i < before.len() {
                    if new_size > before.len() {
                        assert(self.pixels@.subrange(0, before.len() as int)[i] == before[i]);
                    }
                }
            }
            assert(self.pixels@ =~= want);
        }
    }

    /// Overwrites every pixel with one colour.
    pub fn clear(&mut self, color: [u8; 4])
        requires
            old(self).pixels@.len() % 4 == 0,
        ensures
            final(self).name == old(self).name,
            final(self).visible == old(self).visible,
            final(self).width == old(self).width,
            final(self).height == old(self).height,
            final(self).pixels@ == Seq::new(
                old(self).pixels@.len(),
                |i: int| channel(rgba(color), i % 4),
            ),
    {
        let len: usize = self.pixels.len();
        let mut i: usize = 0;
        while i < len
            invariant
                i <= len,
                i % 4 == 0,
                len % 4 == 0,
                self.pixels@.len() == len,
                self.name == old(self).name,
                self.visible == old(self).visible,
                self.width == old(self).width,
                self.height == old(self).height,
                forall|j: int| 0 <= j < i ==> self.pixels@[j] == channel(rgba(color), j % 4),
            decreases len - i,
        {
            store_bytes(&mut self.pixels, i, color);
            i += 4;
        }
        assert(self.pixels@ =~= Seq::new(len as nat, |i: int| channel(rgba(color), i % 4)));
    }

    /// Takes name and visibility from a project's entry for this layer.
    pub fn apply_metadata(&mut self, metadata: &LayerMetadata)
        ensures
            final(self).name@ == metadata.name@,
            final(self).visible == metadata.visible,
            final(self).width == old(self).width,
            final(self).height == old(self).height,
            final(self).pixels == old(self).pixels,
    {
        self.name = metadata.name.clone();
        self.visible = metadata.visible;
    }

    /// Whether `pixels` holds an image of the layer's size, as an export
    /// needs it: at least `width * height * 4` bytes.
    pub fn is_complete(&self) -> (complete: bool)
        ensures
            complete == (tight_len(self.width as int, self.height as int) <= self.pixels@.len()),
    {
        assert(0 <= self.width * self.height <= 0xffff_ffff * 0xffff_ffff) by (nonlinear_arith)
            requires
                0 <= self.width <= 0xffff_ffff,
                0 <= self.height <= 0xffff_ffff,
        ;
        let need: u128 = self.width as u128 * self.height as u128 * 4;
        need <= self.pixels.len() as u128
    }
}

/// A project's entry for one layer.
#[derive(Clone, Debug)]
pub struct LayerMetadata {
    pub name: String,
    pub visible: bool,
    pub filename: String,
}

/// A project: a name, a size, and its layers from bottom to top.
#[derive(Clone, Debug)]
pub struct Project {
    pub name: String,
    pub width: u32,
    pub height: u32,
    pub layers: Vec<LayerMetadata>,
}

impl Project {
    /// A project without layers.
    pub fn new(name: String, width: u32, height: u32) -> (project: Project)
        ensures
            project.name == name,
            project.width == width,
            project.height == height,
            project.layers@.len() == 0,
    {
        Project { name, width, height, layers: Vec::new() }
    }

    /// Adds an entry for a visible layer on top.
    pub fn add_layer_metadata(&mut self, name: String, filename: String)
        ensures
            final(self).name == old(self).name,
            final(self).width == old(self).width,
            final(self).height == old(self).height,
            final(self).layers@ == old(self).layers@.push(
                LayerMetadata { name: name, visible: true, filename: filename },
            ),
    {
        self.layers.push(LayerMetadata { name, visible: true, filename });
    }
}

/// The character of a decimal digit.
pub open spec fn digit_char(d: nat) -> char {
    if d == 0 {
        '0'
    } else if d == 1 {
        '1'
    } else if d == 2 {
        '2'
    } else if d == 3 {
        '3'
    } else if d == 4 {
        '4'
    } else if d == 5 {
        '5'
    } else if d == 6 {
        '6'
    } else if d == 7 {
        '7'
    } else if d == 8 {
        '8'
    } else {
        '9'
    }
}

/// The decimal digits of a number, at least `width` of them, with zeros
/// in front where the number has fewer.
pub open spec fn padded_decimal(n: nat, width: nat) -> Seq<char>
    decreases n, width,
{
    if n < 10 && width <= 1 {
        seq![digit_char(n)]
    } else {
        padded_decimal(n / 10, (if width == 0 {
            0
        } else {
            width - 1
        }) as nat).push(digit_char(n % 10))
    }
}

/// A number in decimal with at least three digits: `format!` of std with
/// `{:03}`, which writes the digits of the number and puts zeros in front
/// of fewer than three.
#[verifier::external_body]
fn three_digits(n: usize) -> (digits: String)
    ensures
        digits@ == padded_decimal(n as nat, 3),
{
    format!("{:03}", n)
}

/// Name of the file that holds layer `index` of a project.
pub fn layer_filename(index: usize) -> (name: String)
    ensures
        name@ == "layer_"@ + padded_decimal(index as nat, 3) + ".png"@,
{
    let digits: String = three_digits(index);
    join3("layer_", digits.as_str(), ".png")
}

} // verus!
