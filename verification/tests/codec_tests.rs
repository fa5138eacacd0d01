use gimp::codec::decode_all;
use gimp::icons::{icon_asset, icon_path_variants, load_icon, Icon, IconCache, ICON_COUNT};
use gimp::input::{SliderDrag, Tool};
use gimp::layer::Layer;

/// A 2 by 1 image, red then blue, encoded as PNG.
fn png() -> Vec<u8> {
    let image = image::RgbaImage::from_raw(2, 1, vec![255, 0, 0, 255, 0, 0, 255, 255]).unwrap();
    let mut bytes = std::io::Cursor::new(Vec::new());
    image.write_to(&mut bytes, image::ImageFormat::Png).unwrap();
    bytes.into_inner()
}

#[test]
fn empty_icon_has_no_pixels() {
    let icon = Icon::empty();
    assert!(icon.pixels.is_empty());
    assert_eq!((icon.width, icon.height), (0, 0));
}

#[test]
fn decode_all_decodes_what_is_there() {
    let decoded = decode_all(&vec![None, Some(vec![1, 2, 3]), Some(png())]);
    assert_eq!(decoded.len(), 3);
    assert!(decoded[0].is_none());
    assert!(decoded[1].is_none());
    assert_eq!(decoded[2], Some((vec![255, 0, 0, 255, 0, 0, 255, 255], 2, 1)));
}

#[test]
fn pick_takes_the_first_decoded_image() {
    let icon = Icon::pick(vec![None, Some((vec![1, 2, 3, 4], 1, 1)), Some((vec![9; 8], 2, 1))]);
    assert_eq!(icon.pixels, vec![1, 2, 3, 4]);
    assert_eq!((icon.width, icon.height), (1, 1));
    let none = Icon::pick(vec![None, None]);
    assert!(none.pixels.is_empty());
    assert!(Icon::pick(Vec::new()).pixels.is_empty());
}

#[test]
fn load_icon_takes_the_first_file_that_decodes() {
    let icon = load_icon(&vec![None, Some(b"not an image".to_vec()), Some(png())]);
    assert_eq!((icon.width, icon.height), (2, 1));
    assert_eq!(icon.pixels, vec![255, 0, 0, 255, 0, 0, 255, 255]);
    let missing = load_icon(&vec![None, None, None]);
    assert!(missing.pixels.is_empty());
    assert_eq!((missing.width, missing.height), (0, 0));
}

#[test]
fn icon_paths_are_tried_in_order() {
    let paths = icon_path_variants("assets/brush.png");
    assert_eq!(paths, vec!["assets/brush.png", "Gimp/assets/brush.png", "./Gimp/assets/brush.png"]);
}

#[test]
fn icon_assets_are_listed() {
    assert_eq!(ICON_COUNT, 12);
    assert_eq!(icon_asset(0), "assets/brush.png");
    assert_eq!(icon_asset(2), "assets/fillbucket.png");
    assert_eq!(icon_asset(11), "assets/blur.png");
    assert_eq!(icon_asset(12), "");
}

#[test]
fn icon_cache_loads_each_icon_from_its_files() {
    let mut files = vec![vec![None, None, None]; ICON_COUNT];
    files[1] = vec![None, Some(png()), None];
    let cache = IconCache::load(&files);
    assert!(cache.brush.pixels.is_empty());
    assert_eq!((cache.eraser.width, cache.eraser.height), (2, 1));
    assert!(cache.blur.pixels.is_empty());
    let bare = IconCache::load(&Vec::new());
    assert!(bare.eraser.pixels.is_empty());
}

#[test]
fn scaled_to_the_same_size_keeps_the_pixels() {
    let layer = Layer::from_rgba("l".to_string(), 2, 1, vec![1, 2, 3, 4, 5, 6, 7, 8]);
    assert!(layer.check_can_scale_to(2, 1));
    let same = layer.scaled_to(2, 1);
    assert_eq!(same.pixels, vec![1, 2, 3, 4, 5, 6, 7, 8]);
    assert_eq!(same.name, "l");
}

#[test]
fn scaled_to_resamples_by_nearest_neighbour() {
    let layer = Layer::from_rgba("l".to_string(), 2, 1, vec![255, 0, 0, 255, 0, 0, 255, 255]);
    assert!(layer.check_can_scale_to(4, 2));
    let big = layer.scaled_to(4, 2);
    assert_eq!((big.width, big.height), (4, 2));
    assert_eq!(big.pixels.len(), 32);
    assert!(big.visible);
    assert_eq!(big.get_pixel(0, 0), [255, 0, 0, 255]);
    assert_eq!(big.get_pixel(3, 1), [0, 0, 255, 255]);
    let small = big.scaled_to(1, 1);
    assert_eq!(small.pixels.len(), 4);
}

#[test]
fn a_layer_with_too_few_pixels_cannot_be_scaled() {
    let layer = Layer::from_rgba("l".to_string(), 2, 2, vec![0; 15]);
    assert!(!layer.check_can_scale_to(4, 4));
}

#[test]
fn tools_and_sliders_compare() {
    assert_eq!(Tool::Brush, Tool::Brush);
    assert_ne!(Tool::Eraser, Tool::FillBucket);
    assert_ne!(Tool::ColorPicker, Tool::Move);
    assert_ne!(SliderDrag::Size, SliderDrag::Brightness);
}
