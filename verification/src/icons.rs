//! The icons of the tool panel.

use vstd::prelude::*;
use crate::codec::decode_all;
use crate::text::join3;

verus! {

/// An RGBA8 icon, tight-packed.
#[derive(Clone)]
pub struct Icon {
    pub pixels: Vec<u8>,
    pub width: u32,
    pub height: u32,
}

/// What an icon is, as contracts see it.
pub struct IconView {
    pub pixels: Seq<u8>,
    pub width: u32,
    pub height: u32,
}

impl View for Icon {
    type V = IconView;

    open spec fn view(&self) -> IconView {
        IconView { pixels: self.pixels@, width: self.width, height: self.height }
    }
}

/// The icon without pixels.
pub open spec fn empty_icon() -> IconView {
    IconView { pixels: Seq::empty(), width: 0, height: 0 }
}

/// The icon that a decoded image gives.
pub open spec fn icon_of(decoded: (Vec<u8>, u32, u32)) -> IconView {
    IconView { pixels: decoded.0@, width: decoded.1, height: decoded.2 }
}

/// The first image that was decoded, from index `from` on, as an icon; the
/// empty icon if there is none.
pub open spec fn first_icon(decoded: Seq<Option<(Vec<u8>, u32, u32)>>, from: int) -> IconView
    decreases decoded.len() - from,
{
    if from < 0 || from >= decoded.len() {
        empty_icon()
    } else {
        match decoded[from] {
            Some(image) => icon_of(image),
            None => first_icon(decoded, from + 1),
        }
    }
}

impl Icon {
    /// The icon without pixels, which stands for one that could not be
    /// loaded.
    pub fn empty() -> (icon: Icon)
        ensures
            icon@ == empty_icon(),
    {
        let icon = Icon { pixels: Vec::new(), width: 0, height: 0 };
        assert(icon@.pixels =~= Seq::empty());
        icon
    }

    /// The first of the given images that was decoded, as an icon; the
    /// empty icon if none was.
    pub fn pick(decoded: Vec<Option<(Vec<u8>, u32, u32)>>) -> (icon: Icon)
        ensures
            icon@ == first_icon(decoded@, 0),
    {
        let ghost all = decoded@;
        let mut decoded = decoded;
        let mut rest: usize = decoded.len();
        let mut found: Icon = Icon::empty();
        // From the last candidate to the first, so that the first wins.
        while rest > 0
            invariant
                rest <= all.len(),
                decoded@ == all.subrange(0, rest as int),
                found@ == first_icon(all, rest as int),
            decreases rest,
        {
            let last: Option<Option<(Vec<u8>, u32, u32)>> = decoded.pop();
            rest -= 1;
            assert(last == Some(all[rest as int]));
            match last {
                Some(Some(image)) => {
                    found = Icon { pixels: image.0, width: image.1, height: image.2 };
                },
                _ => {},
            }
            assert(decoded@ =~= all.subrange(0, rest as int));
        }
        found
    }
}

/// The file names under which an icon is looked for, in this order: the
/// path itself, then the path below the application's directory.
pub fn icon_path_variants(path: &str) -> (paths: Vec<String>)
    ensures
        paths@.len() == 3,
        paths@[0]@ == path@,
        paths@[1]@ == "Gimp/"@ + path@,
        paths@[2]@ == "./Gimp/"@ + path@,
{
    let mut paths: Vec<String> = Vec::new();
    paths.push(join3(path, "", ""));
    paths.push(join3("Gimp/", path, ""));
    paths.push(join3("./Gimp/", path, ""));
    proof {
        reveal_strlit("");
        assert(path@ + ""@ + ""@ =~= path@);
        assert("Gimp/"@ + path@ + ""@ =~= "Gimp/"@ + path@);
        assert("./Gimp/"@ + path@ + ""@ =~= "./Gimp/"@ + path@);
    }
    paths
}

/// Loads an icon from the contents of the files that were found under its
/// path variants, `None` for a file that could not be read: the first that
/// decodes as an image wins. Without any file the icon is empty.
pub fn load_icon(files: &Vec<Option<Vec<u8>>>) -> (icon: Icon)
    ensures
        (forall|i: int| 0 <= i < files@.len() ==> files@[i] is None) ==> icon@ == empty_icon(),
{
    let decoded: Vec<Option<(Vec<u8>, u32, u32)>> = decode_all(files);
    proof {
        lemma_none_decoded(decoded@, 0);
    }
    Icon::pick(decoded)
}

/// Where nothing was decoded, the icon is empty.
pub proof fn lemma_none_decoded(decoded: Seq<Option<(Vec<u8>, u32, u32)>>, from: int)
    requires
        0 <= from,
    ensures
        (forall|i: int| from <= i < decoded.len() ==> decoded[i] is None) ==> first_icon(
            decoded,
            from,
        ) == empty_icon(),
    decreases decoded.len() - from,
{
    if from < decoded.len() {
        lemma_none_decoded(decoded, from + 1);
    }
}

/// The icons of the tool panel.
pub struct IconCache {
    pub brush: Icon,
    pub eraser: Icon,
    pub fill: Icon,
    pub picker: Icon,
    pub move_tool: Icon,
    pub import: Icon,
    pub export: Icon,
    pub save: Icon,
    pub invert: Icon,
    pub grayscale: Icon,
    pub brightness: Icon,
    pub blur: Icon,
}

/// Number of icons of the tool panel.
pub const ICON_COUNT: usize = 12;

/// Path of the asset of icon `i`, in the order of the fields of
/// `IconCache`; the empty string for an index that has no icon.
pub fn icon_asset(i: usize) -> (path: &'static str)
    ensures
        i >= ICON_COUNT ==> path@ == ""@,
{
    match i {
        0 => "assets/brush.png",
        1 => "assets/eraser.png",
        2 => "assets/fillbucket.png",
        3 => "assets/colorpicker.png",
        4 => "assets/move.png",
        5 => "assets/import.png",
        6 => "assets/export.png",
        7 => "assets/save.png",
        8 => "assets/invert.png",
        9 => "assets/grayscale.png",
        10 => "assets/brightness.png",
        11 => "assets/blur.png",
        _ => "",
    }
}

/// The images that were decoded for icon `i`; none where the list ends
/// before it.
pub open spec fn decoded_for(
    decoded: Seq<Vec<Option<(Vec<u8>, u32, u32)>>>,
    i: int,
) -> Seq<Option<(Vec<u8>, u32, u32)>> {
    if 0 <= i < decoded.len() {
        decoded[i]@
    } else {
        Seq::empty()
    }
}

/// Whether none of the files could be read.
pub open spec fn none_read(files: Seq<Option<Vec<u8>>>) -> bool {
    forall|j: int| 0 <= j < files.len() ==> files[j] is None
}

/// Whether nothing was decoded.
pub open spec fn none_decoded(decoded: Seq<Option<(Vec<u8>, u32, u32)>>) -> bool {
    forall|j: int| 0 <= j < decoded.len() ==> decoded[j] is None
}

/// Whether no file of icon `i` could be read.
pub open spec fn unread(files: Seq<Vec<Option<Vec<u8>>>>, i: int) -> bool {
    0 <= i < files.len() ==> none_read(files[i]@)
}

/// Takes the images decoded for icon `i` out of the list and picks the
/// icon among them.
fn pick_at(decoded: &mut Vec<Vec<Option<(Vec<u8>, u32, u32)>>>, i: usize) -> (icon: Icon)
    ensures
        icon@ == first_icon(decoded_for(old(decoded)@, i as int), 0),
        final(decoded)@.len() == old(decoded)@.len(),
        forall|k: int|
            0 <= k < old(decoded)@.len() && k != i ==> final(decoded)@[k] == old(decoded)@[k],
{
    if i < decoded.len() {
        let mut taken: Vec<Option<(Vec<u8>, u32, u32)>> = Vec::new();
        std::mem::swap(&mut taken, &mut decoded[i]);
        Icon::pick(taken)
    } else {
        Icon::empty()
    }
}

/// Decodes the files of every icon.
pub fn decode_icons(files: &Vec<Vec<Option<Vec<u8>>>>) -> (decoded: Vec<
    Vec<Option<(Vec<u8>, u32, u32)>>,
>)
    ensures
        decoded@.len() == files@.len(),
        forall|i: int|
            0 <= i < files@.len() && none_read(files@[i]@) ==> none_decoded(
                (#[trigger] decoded@[i])@,
            ),
{
    let mut decoded: Vec<Vec<Option<(Vec<u8>, u32, u32)>>> = Vec::new();
    let mut i: usize = 0;
    while i < files.len()
        invariant
            i <= files@.len(),
            decoded@.len() == i,
            forall|k: int|
                0 <= k < i && none_read(files@[k]@) ==> none_decoded((#[trigger] decoded@[k])@),
        decreases files@.len() - i,
    {
        let ghost before = decoded@;
        let images: Vec<Option<(Vec<u8>, u32, u32)>> = decode_all(&files[i]);
        assert(none_read(files@[i as int]@) ==> none_decoded(images@));
        decoded.push(images);
        assert(forall|k: int| 0 <= k < i ==> decoded@[k] == before[k]);
        i += 1;
    }
    decoded
}

impl IconCache {
    /// The icons picked from what was decoded for each of them:
    /// `decoded[i]` holds the images decoded from the files of icon `i`, in
    /// the order of the fields. An icon of which nothing was decoded, or
    /// whose entry is missing, is empty.
    pub fn pick_all(decoded: Vec<Vec<Option<(Vec<u8>, u32, u32)>>>) -> (cache: IconCache)
        ensures
            cache.brush@ == first_icon(decoded_for(decoded@, 0), 0),
            cache.eraser@ == first_icon(decoded_for(decoded@, 1), 0),
            cache.fill@ == first_icon(decoded_for(decoded@, 2), 0),
            cache.picker@ == first_icon(decoded_for(decoded@, 3), 0),
            cache.move_tool@ == first_icon(decoded_for(decoded@, 4), 0),
            cache.import@ == first_icon(decoded_for(decoded@, 5), 0),
            cache.export@ == first_icon(decoded_for(decoded@, 6), 0),
            cache.save@ == first_icon(decoded_for(decoded@, 7), 0),
            cache.invert@ == first_icon(decoded_for(decoded@, 8), 0),
            cache.grayscale@ == first_icon(decoded_for(decoded@, 9), 0),
            cache.brightness@ == first_icon(decoded_for(decoded@, 10), 0),
            cache.blur@ == first_icon(decoded_for(decoded@, 11), 0),
    {
        let mut decoded = decoded;
        let brush: Icon = pick_at(&mut decoded, 0);
        let eraser: Icon = pick_at(&mut decoded, 1);
        let fill: Icon = pick_at(&mut decoded, 2);
        let picker: Icon = pick_at(&mut decoded, 3);
        let move_tool: Icon = pick_at(&mut decoded, 4);
        let import: Icon = pick_at(&mut decoded, 5);
        let export: Icon = pick_at(&mut decoded, 6);
        let save: Icon = pick_at(&mut decoded, 7);
        let invert: Icon = pick_at(&mut decoded, 8);
        let grayscale: Icon = pick_at(&mut decoded, 9);
        let brightness: Icon = pick_at(&mut decoded, 10);
        let blur: Icon = pick_at(&mut decoded, 11);
        IconCache {
            brush,
            eraser,
            fill,
            picker,
            move_tool,
            import,
            export,
            save,
            invert,
            grayscale,
            brightness,
            blur,
        }
    }

    /// Whether every icon is empty.
    pub open spec fn all_empty(&self) -> bool {
        &&& self.brush@ == empty_icon()
        &&& self.eraser@ == empty_icon()
        &&& self.fill@ == empty_icon()
        &&& self.picker@ == empty_icon()
        &&& self.move_tool@ == empty_icon()
        &&& self.import@ == empty_icon()
        &&& self.export@ == empty_icon()
        &&& self.save@ == empty_icon()
        &&& self.invert@ == empty_icon()
        &&& self.grayscale@ == empty_icon()
        &&& self.brightness@ == empty_icon()
        &&& self.blur@ == empty_icon()
    }

    /// Loads all icons. `files[i]` holds, for the icon of index `i`, the
    /// contents of the files found under its path variants, `None` for one
    /// that could not be read. Each icon is the first of its files that
    /// decodes as an image, and empty if none does; what decodes is up to
    /// the decoder. An icon none of whose files could be read is empty.
    pub fn load(files: &Vec<Vec<Option<Vec<u8>>>>) -> (cache: IconCache)
        ensures
            (forall|i: int| 0 <= i < files@.len() ==> unread(files@, i)) ==> cache.all_empty(),
            forall|i: int|
                0 <= i < ICON_COUNT && unread(files@, i) ==> #[trigger] cache.icon(i)
                    == empty_icon(),
    {
        let decoded: Vec<Vec<Option<(Vec<u8>, u32, u32)>>> = decode_icons(files);
        proof {
            assert forall|i: int| 0 <= i < ICON_COUNT && unread(files@, i) implies first_icon(
                decoded_for(decoded@, i),
                0,
            ) == empty_icon() by {
                lemma_unread_icon(files@, decoded@, i);
            }
            if forall|i: int| 0 <= i < files@.len() ==> unread(files@, i) {
                assert forall|i: int| 0 <= i < ICON_COUNT implies unread(files@, i) by {}
                lemma_unread_icon(files@, decoded@, 0);
                lemma_unread_icon(files@, decoded@, 1);
                lemma_unread_icon(files@, decoded@, 2);
                lemma_unread_icon(files@, decoded@, 3);
                lemma_unread_icon(files@, decoded@, 4);
                lemma_unread_icon(files@, decoded@, 5);
                lemma_unread_icon(files@, decoded@, 6);
                lemma_unread_icon(files@, decoded@, 7);
                lemma_unread_icon(files@, decoded@, 8);
                lemma_unread_icon(files@, decoded@, 9);
                lemma_unread_icon(files@, decoded@, 10);
                lemma_unread_icon(files@, decoded@, 11);
            }
        }
        IconCache::pick_all(decoded)
    }

    /// The icon of index `i`, in the order of the fields.
    pub open spec fn icon(&self, i: int) -> IconView {
        if i == 0 {
            self.brush@
        } else if i == 1 {
            self.eraser@
        } else if i == 2 {
            self.fill@
        } else if i == 3 {
            self.picker@
        } else if i == 4 {
            self.move_tool@
        } else if i == 5 {
            self.import@
        } else if i == 6 {
            self.export@
        } else if i == 7 {
            self.save@
        } else if i == 8 {
            self.invert@
        } else if i == 9 {
            self.grayscale@
        } else if i == 10 {
            self.brightness@
        } else {
            self.blur@
        }
    }
}

/// An icon none of whose files could be read is empty, whatever was decoded
/// for the other icons.
pub proof fn lemma_unread_icon(
    files: Seq<Vec<Option<Vec<u8>>>>,
    decoded: Seq<Vec<Option<(Vec<u8>, u32, u32)>>>,
    i: int,
)
    requires
        0 <= i,
        decoded.len() == files.len(),
        forall|k: int|
            0 <= k < files.len() && none_read(files[k]@) ==> none_decoded((#[trigger] decoded[k])@),
        unread(files, i),
    ensures
        first_icon(decoded_for(decoded, i), 0) == empty_icon(),
{
    if i < decoded.len() {
        assert(none_read(files[i]@));
        assert(none_decoded(decoded[i]@));
    }
    lemma_none_decoded(decoded_for(decoded, i), 0);
}

} // verus!
