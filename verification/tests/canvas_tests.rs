use gimp::canvas::{aligned_stride, blend_color, map_coord, over_color, Canvas};
use gimp::pixel::{adjust_channel, blend_channel, floor_quotient, luminosity, over_channel, same_color};
use gimp::view::Zoom;

const WHITE: [u8; 4] = [255, 255, 255, 255];
const RED: [u8; 4] = [255, 0, 0, 255];

/// A 4 by 4 image whose pixel (x, y) is [x, y, 7, 255].
fn small_image() -> Vec<u8> {
    let mut image = Vec::new();
    for y in 0..4u8 {
        for x in 0..4u8 {
            image.extend_from_slice(&[x, y, 7, 255]);
        }
    }
    image
}

fn layer_pixel(canvas: &Canvas, x: usize, y: usize) -> [u8; 4] {
    let (w, _) = canvas.loaded_image_size.unwrap();
    let i = (y * w as usize + x) * 4;
    [
        canvas.drawing_layer[i],
        canvas.drawing_layer[i + 1],
        canvas.drawing_layer[i + 2],
        canvas.drawing_layer[i + 3],
    ]
}

#[test]
fn stride_is_aligned_and_holds_the_row() {
    assert_eq!(aligned_stride(0), 0);
    assert_eq!(aligned_stride(1), 256);
    assert_eq!(aligned_stride(64), 256);
    assert_eq!(aligned_stride(65), 512);
    assert_eq!(aligned_stride(800), 3328);
    for width in [0u32, 1, 2, 63, 64, 65, 127, 128, 129, 1000, 4096, 65535] {
        let stride = aligned_stride(width);
        assert!(stride >= width as usize * 4);
        assert_eq!(stride % 256, 0);
        assert!(stride < width as usize * 4 + 256);
    }
}

#[test]
fn new_canvas_is_white_and_clean() {
    let canvas = Canvas::new(3, 2);
    assert_eq!(canvas.width, 3);
    assert_eq!(canvas.height, 2);
    assert_eq!(canvas.stride, 256);
    assert_eq!(canvas.pixels, vec![255u8; 512]);
    assert!(!canvas.dirty);
    assert_eq!(canvas.loaded_image_size, None);
    assert!(canvas.loaded_image_data.is_none());
    assert_eq!(canvas.zoom_scale, Zoom { num: 1, den: 1 });
    assert!(canvas.drawing_layer.is_empty());
    assert_eq!(canvas.pan_offset, (0, 0));
    assert!(canvas.check_wf());
}

#[test]
fn check_wf_sees_a_broken_canvas() {
    let mut canvas = Canvas::new(3, 2);
    canvas.pixels.pop();
    assert!(!canvas.check_wf());
    let mut canvas = Canvas::new(3, 2);
    canvas.zoom_scale = Zoom { num: 0, den: 1 };
    assert!(!canvas.check_wf());
    let mut canvas = Canvas::new(3, 2);
    canvas.loaded_image_size = Some((1, 1));
    assert!(!canvas.check_wf());
}

#[test]
fn set_and_get_pixel() {
    let mut canvas = Canvas::new(4, 3);
    canvas.set_pixel(2, 1, [1, 2, 3, 4]);
    assert!(canvas.dirty);
    assert_eq!(canvas.get_pixel(2, 1), Some([1, 2, 3, 4]));
    assert_eq!(&canvas.pixels[256 + 8..256 + 12], &[1, 2, 3, 4]);
    assert_eq!(canvas.get_pixel(0, 0), Some(WHITE));
    assert_eq!(canvas.get_pixel(4, 0), None);
    assert_eq!(canvas.get_pixel(0, 3), None);
}

#[test]
fn set_pixel_outside_is_ignored() {
    let mut canvas = Canvas::new(4, 3);
    canvas.set_pixel(4, 0, RED);
    canvas.set_pixel(0, 3, RED);
    assert!(!canvas.dirty);
    assert_eq!(canvas.pixels, vec![255u8; 768]);
}

#[test]
fn blend_channel_rounds_to_nearest() {
    // (200*128 + 100*127) / 255 = 150.196..
    assert_eq!(blend_channel(200, 100, 128), 150);
    // (255*1 + 0*254) / 255 = 1
    assert_eq!(blend_channel(255, 0, 1), 1);
    // (255*127 + 0*128) / 255 = 127; (0*127 + 255*128) / 255 = 128
    assert_eq!(blend_channel(255, 0, 127), 127);
    assert_eq!(blend_channel(0, 255, 127), 128);
    // (1*128 + 0*127) / 255 = 0.50196.. rounds up
    assert_eq!(blend_channel(1, 0, 128), 1);
    // (1*127 + 0*128) / 255 = 0.498.. rounds down
    assert_eq!(blend_channel(1, 0, 127), 0);
}

#[test]
fn blend_channel_agrees_with_the_formula_in_floating_point() {
    for alpha in 0..=255u32 {
        let a = alpha as f32 / 255.0;
        for src in 0..=255u32 {
            for dst in (0..=255u32).step_by(3) {
                let want = (src as f32 * a + dst as f32 * (1.0 - a)).round() as u8;
                assert_eq!(blend_channel(src as u8, dst as u8, alpha as u8), want);
            }
        }
    }
}

#[test]
fn over_channel_rounds_down() {
    assert_eq!(over_channel(200, 100, 128), 150);
    // (1*254 + 0*1) / 255 = 0.996..
    assert_eq!(over_channel(1, 0, 254), 0);
    assert_eq!(over_channel(77, 3, 255), 77);
    assert_eq!(over_channel(77, 3, 0), 3);
    // Equal channels stay: (100*51 + 100*204) / 255 = 100.
    assert_eq!(over_channel(100, 100, 51), 100);
}

#[test]
fn blend_with_opaque_colour_is_that_colour() {
    for dst in [[0, 0, 0, 0], [255, 255, 255, 255], [12, 200, 99, 42]] {
        assert_eq!(blend_color([9, 8, 7, 255], dst), [9, 8, 7, 255]);
    }
    assert_eq!(blend_color([9, 8, 7, 0], [12, 200, 99, 42]), [12, 200, 99, 42]);
    assert_eq!(blend_color([200, 0, 50, 128], [100, 100, 100, 255]), [150, 50, 75, 191]);
}

#[test]
fn over_color_keeps_background_alpha() {
    assert_eq!(over_color([200, 0, 50, 128], [100, 100, 100, 77]), [150, 49, 74, 77]);
    assert_eq!(over_color([200, 0, 50, 0], [1, 2, 3, 4]), [1, 2, 3, 4]);
}

#[test]
fn same_color_compares_all_channels() {
    assert!(same_color(&[1, 2, 3, 4], &[1, 2, 3, 4]));
    assert!(!same_color(&[1, 2, 3, 4], &[1, 2, 3, 5]));
    assert!(!same_color(&[0, 2, 3, 4], &[1, 2, 3, 4]));
}

#[test]
fn luminosity_weights_the_channels() {
    assert_eq!(luminosity(255, 0, 0), 76);
    assert_eq!(luminosity(0, 255, 0), 149);
    assert_eq!(luminosity(0, 0, 255), 29);
    assert_eq!(luminosity(10, 20, 30), 18);
    assert_eq!(luminosity(255, 255, 255), 255);
    assert_eq!(luminosity(123, 123, 123), 123);
}

#[test]
fn adjust_channel_follows_the_contrast_formula() {
    // Contrast 0 is factor 1.
    assert_eq!(adjust_channel(200, 10, 0), 210);
    assert_eq!(adjust_channel(200, -10, 0), 190);
    assert_eq!(adjust_channel(250, 10, 0), 255);
    assert_eq!(adjust_channel(5, -10, 0), 0);
    // Contrast 100: factor 91945 / 40545.
    assert_eq!(adjust_channel(200, 0, 100), 255);
    assert_eq!(adjust_channel(100, 0, 100), 64);
    assert_eq!(adjust_channel(128, 0, 100), 128);
    assert_eq!(adjust_channel(130, 0, 100), 132);
    // Contrast -255: factor 0, everything becomes 128.
    assert_eq!(adjust_channel(0, 0, -255), 128);
    assert_eq!(adjust_channel(255, 5, -255), 133);
    // Contrast 259: the factor is infinite.
    assert_eq!(adjust_channel(129, 0, 259), 255);
    assert_eq!(adjust_channel(128, 0, 259), 0);
    assert_eq!(adjust_channel(127, 0, 259), 0);
    // Beyond 259 the factor is negative: 259*560 / (255*-41).
    assert_eq!(adjust_channel(138, 0, 300), 0);
    assert_eq!(adjust_channel(127, 0, 300), 141);
}

#[test]
fn floor_quotient_rounds_toward_minus_infinity() {
    assert_eq!(floor_quotient(7, 2), 3);
    assert_eq!(floor_quotient(-7, 2), -4);
    assert_eq!(floor_quotient(-8, 2), -4);
    assert_eq!(floor_quotient(0, 5), 0);
    assert_eq!(floor_quotient(-1, 5), -1);
}

#[test]
fn map_coord_divides_by_zoom_then_subtracts_pan() {
    let two = Zoom { num: 2, den: 1 };
    assert_eq!(map_coord(10, two, 3, 100), Some(2));
    assert_eq!(map_coord(10, two, -4, 100), Some(9));
    assert_eq!(map_coord(11, two, 3, 100), Some(2));
    assert_eq!(map_coord(5, two, 3, 100), None);
    assert_eq!(map_coord(10, two, -4, 9), None);
    let half = Zoom { num: 1, den: 2 };
    assert_eq!(map_coord(3, half, 0, 100), Some(6));
    let odd = Zoom { num: 5, den: 4 };
    // floor(7 / 1.25) = 5
    assert_eq!(map_coord(7, odd, 0, 100), Some(5));
    assert_eq!(map_coord(u32::MAX, Zoom { num: 1, den: u64::MAX }, i32::MIN, u32::MAX), None);
}

#[test]
fn canvas_pixel_maps_to_image_pixel_under_zoom_and_pan() {
    let mut canvas = Canvas::new(32, 32);
    canvas.zoom_scale = Zoom { num: 2, den: 1 };
    canvas.paste_image_with_offset(16, 16, &vec![0u8; 16 * 16 * 4], 3, -4);
    assert_eq!(canvas.canvas_to_image(10, 10), Some((2, 9)));
    assert_eq!(canvas.canvas_to_image(0, 0), None);
    assert_eq!(canvas.canvas_to_image(6, 0), Some((0, 4)));
}

#[test]
fn paste_samples_the_image_and_whitens_the_rest() {
    let mut canvas = Canvas::new(6, 5);
    canvas.paste_image(4, 4, &small_image());
    assert!(canvas.dirty);
    assert!(canvas.check_wf());
    assert_eq!(canvas.loaded_image_size, Some((4, 4)));
    assert_eq!(canvas.loaded_image_data, Some(small_image()));
    assert_eq!(canvas.drawing_layer, vec![0u8; 64]);
    for y in 0..5u32 {
        for x in 0..6u32 {
            let want = if x < 4 && y < 4 { [x as u8, y as u8, 7, 255] } else { WHITE };
            assert_eq!(canvas.get_pixel(x, y), Some(want));
        }
    }
}

#[test]
fn paste_with_offset_and_zoom() {
    let mut canvas = Canvas::new(8, 8);
    canvas.zoom_scale = Zoom { num: 2, den: 1 };
    canvas.paste_image_with_offset(4, 4, &small_image(), -1, 1);
    for y in 0..8u32 {
        for x in 0..8u32 {
            let ix = (x / 2) as i32 + 1;
            let iy = (y / 2) as i32 - 1;
            let want = if (0..4).contains(&ix) && (0..4).contains(&iy) {
                [ix as u8, iy as u8, 7, 255]
            } else {
                WHITE
            };
            assert_eq!(canvas.get_pixel(x, y), Some(want));
        }
    }
    assert_eq!(canvas.pan_offset, (-1, 1));
}

#[test]
fn paste_of_short_data_leaves_unsampled_pixels() {
    let mut canvas = Canvas::new(4, 4);
    canvas.set_pixel(0, 1, [9, 9, 9, 9]);
    // The first row of the image only.
    let image = small_image();
    canvas.paste_image(4, 4, &image[..16]);
    assert_eq!(canvas.get_pixel(3, 0), Some([3, 0, 7, 255]));
    assert_eq!(canvas.get_pixel(0, 1), Some([9, 9, 9, 9]));
    assert_eq!(canvas.get_pixel(1, 1), Some(WHITE));
}

#[test]
fn paste_keeps_the_layer_for_the_same_size_and_clears_it_for_another() {
    let mut canvas = Canvas::new(4, 4);
    canvas.paste_image(4, 4, &small_image());
    canvas.blend_pixel(1, 1, RED);
    assert_eq!(layer_pixel(&canvas, 1, 1), RED);
    canvas.paste_image(4, 4, &small_image());
    assert_eq!(layer_pixel(&canvas, 1, 1), RED);
    assert_eq!(canvas.get_pixel(1, 1), Some(RED));
    canvas.paste_image(2, 2, &vec![5u8; 16]);
    assert_eq!(canvas.drawing_layer, vec![0u8; 16]);
    assert_eq!(canvas.get_pixel(1, 1), Some([5, 5, 5, 5]));
}

#[test]
fn composite_lays_the_layer_over_the_background() {
    let mut canvas = Canvas::new(4, 4);
    canvas.paste_image(4, 4, &vec![100u8; 64]);
    // Half-transparent stroke pixel put into the layer by hand.
    canvas.drawing_layer[0..4].copy_from_slice(&[200, 0, 50, 128]);
    canvas.composite_layers();
    assert_eq!(canvas.get_pixel(0, 0), Some([150, 49, 74, 100]));
    assert_eq!(canvas.get_pixel(1, 0), Some([100, 100, 100, 100]));
}

#[test]
fn repan_moves_the_image_and_what_was_drawn() {
    let mut canvas = Canvas::new(6, 6);
    canvas.paste_image(4, 4, &small_image());
    canvas.blend_pixel(0, 0, RED);
    canvas.repan_image(-1, -1);
    // Canvas (0, 0) now shows image (1, 1); image (0, 0) is out of sight.
    assert_eq!(canvas.get_pixel(0, 0), Some([1, 1, 7, 255]));
    assert_eq!(canvas.get_pixel(3, 3), Some(WHITE));
    canvas.repan_image(2, 1);
    assert_eq!(canvas.get_pixel(2, 1), Some(RED));
    assert_eq!(canvas.get_pixel(3, 1), Some([1, 0, 7, 255]));
    assert_eq!(canvas.get_pixel(0, 0), Some(WHITE));
}

#[test]
fn repan_without_image_does_nothing() {
    let mut canvas = Canvas::new(3, 3);
    canvas.repan_image(5, 5);
    assert!(!canvas.dirty);
    assert_eq!(canvas.pan_offset, (0, 0));
    assert_eq!(canvas.pixels, vec![255u8; 768]);
}

#[test]
fn blend_pixel_writes_both_buffers() {
    let mut canvas = Canvas::new(4, 4);
    canvas.paste_image(4, 4, &vec![100u8; 64]);
    canvas.dirty = false;
    canvas.blend_pixel(2, 3, [200, 0, 50, 128]);
    assert!(canvas.dirty);
    // Composite: blended over the image pixel [100, 100, 100, 100].
    assert_eq!(canvas.get_pixel(2, 3), Some([150, 50, 75, 114]));
    // Layer: blended over transparent black.
    assert_eq!(layer_pixel(&canvas, 2, 3), [100, 0, 25, 64]);
    // A second pass adds coverage.
    canvas.blend_pixel(2, 3, [200, 0, 50, 128]);
    assert_eq!(layer_pixel(&canvas, 2, 3), [150, 0, 38, 96]);
}

#[test]
fn blend_pixel_outside_canvas_or_image() {
    let mut canvas = Canvas::new(6, 6);
    canvas.paste_image(4, 4, &vec![100u8; 64]);
    canvas.dirty = false;
    canvas.blend_pixel(6, 0, RED);
    assert!(!canvas.dirty);
    canvas.blend_pixel(5, 5, RED);
    assert_eq!(canvas.get_pixel(5, 5), Some(RED));
    assert_eq!(canvas.drawing_layer, vec![0u8; 64]);
}

#[test]
fn blend_pixel_without_image_touches_the_composite_only() {
    let mut canvas = Canvas::new(2, 2);
    canvas.blend_pixel(1, 1, RED);
    assert_eq!(canvas.get_pixel(1, 1), Some(RED));
    assert!(canvas.drawing_layer.is_empty());
}

#[test]
fn fill_rect_clips_to_the_canvas() {
    let mut canvas = Canvas::new(4, 4);
    canvas.fill_rect(2, 1, 10, 2, RED);
    assert!(canvas.dirty);
    for y in 0..4u32 {
        for x in 0..4u32 {
            let want = if x >= 2 && (1..3).contains(&y) { RED } else { WHITE };
            assert_eq!(canvas.get_pixel(x, y), Some(want));
        }
    }
    // Padding is left alone.
    assert!(canvas.pixels[16..256].iter().all(|b| *b == 255));
    canvas.fill_rect(u32::MAX, u32::MAX, u32::MAX, u32::MAX, [0, 0, 0, 0]);
    assert_eq!(canvas.get_pixel(3, 3), Some(WHITE));
}

#[test]
fn fill_rect_of_no_area_does_nothing() {
    let mut canvas = Canvas::new(4, 4);
    canvas.fill_rect(0, 0, 0, 4, RED);
    canvas.fill_rect(0, 0, 4, 0, RED);
    assert!(!canvas.dirty);
    assert_eq!(canvas.pixels, vec![255u8; 1024]);
}

#[test]
fn extract_drops_the_padding() {
    let mut canvas = Canvas::new(2, 2);
    canvas.set_pixel(0, 0, [1, 2, 3, 4]);
    canvas.set_pixel(1, 1, [5, 6, 7, 8]);
    assert_eq!(
        canvas.extract_tight_pixels(),
        vec![1, 2, 3, 4, 255, 255, 255, 255, 255, 255, 255, 255, 5, 6, 7, 8]
    );
    assert!(Canvas::new(0, 3).extract_tight_pixels().is_empty());
}

#[test]
fn load_pixels_expands_to_the_stride() {
    let mut canvas = Canvas::new(2, 2);
    let tight: Vec<u8> = (1..=16).collect();
    canvas.load_pixels(2, 2, tight.clone());
    assert!(canvas.dirty);
    assert_eq!(&canvas.pixels[0..8], &tight[0..8]);
    assert_eq!(&canvas.pixels[256..264], &tight[8..16]);
    assert!(canvas.pixels[8..256].iter().all(|b| *b == 255));
    assert_eq!(canvas.extract_tight_pixels(), tight);
}

#[test]
fn load_pixels_of_another_size_is_ignored() {
    let mut canvas = Canvas::new(2, 2);
    canvas.load_pixels(2, 3, vec![0; 24]);
    canvas.load_pixels(1, 2, vec![0; 8]);
    assert!(!canvas.dirty);
    assert_eq!(canvas.pixels, vec![255u8; 512]);
}

#[test]
fn load_pixels_skips_incomplete_rows() {
    let mut canvas = Canvas::new(2, 2);
    canvas.load_pixels(2, 2, vec![0; 12]);
    assert_eq!(&canvas.pixels[0..8], &[0u8; 8]);
    assert_eq!(&canvas.pixels[256..264], &[255u8; 8]);
}

#[test]
fn load_of_what_was_extracted_changes_nothing() {
    let mut canvas = Canvas::new(5, 4);
    canvas.paste_image(4, 4, &small_image());
    canvas.fill_rect(1, 1, 2, 2, [9, 8, 7, 6]);
    let before = canvas.pixels.clone();
    let tight = canvas.extract_tight_pixels();
    canvas.load_pixels(5, 4, tight.clone());
    assert_eq!(canvas.pixels, before);
    assert_eq!(canvas.extract_tight_pixels(), tight);
}

#[test]
fn map_coord_agrees_with_division_in_floating_point() {
    // Zooms that a float holds exactly, and canvas coordinates far below
    // the precision of one.
    for (num, den) in [(1u64, 1u64), (2, 1), (1, 2), (5, 4), (125, 64), (4, 5), (1, 8), (5, 1)] {
        let zoom = num as f32 / den as f32;
        for c in 0..3000u32 {
            for pan in [-7i32, 0, 3] {
                let want = (c as f32 / zoom) as i32 - pan;
                let got = map_coord(c, Zoom { num, den }, pan, 1_000_000);
                let expected = if (0..1_000_000).contains(&want) { Some(want as u32) } else { None };
                assert_eq!(got, expected, "c = {}, zoom = {}/{}, pan = {}", c, num, den, pan);
            }
        }
    }
}
