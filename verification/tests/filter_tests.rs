use gimp::canvas::Canvas;

const RED: [u8; 4] = [255, 0, 0, 255];

fn with_image(w: u32, h: u32) -> Canvas {
    let mut canvas = Canvas::new(w, h);
    canvas.paste_image(w, h, &vec![100u8; (w * h * 4) as usize]);
    canvas.dirty = false;
    canvas
}

fn drawn_pixel(canvas: &Canvas, x: u32, y: u32) -> [u8; 4] {
    let (w, _) = canvas.loaded_image_size.unwrap();
    let i = ((y * w + x) * 4) as usize;
    let p = &canvas.drawing_layer[i..i + 4];
    [p[0], p[1], p[2], p[3]]
}

#[test]
fn filters_without_image_only_mark_the_canvas() {
    let mut canvas = Canvas::new(3, 3);
    canvas.filter_invert();
    assert!(canvas.dirty);
    canvas.dirty = false;
    canvas.filter_grayscale();
    assert!(canvas.dirty);
    canvas.dirty = false;
    canvas.filter_brightness_contrast(10, 10);
    assert!(canvas.dirty);
    canvas.dirty = false;
    canvas.move_layer(1, 1);
    assert!(canvas.dirty);
    canvas.dirty = false;
    canvas.filter_blur(2);
    assert!(canvas.dirty);
    assert_eq!(canvas.pixels, vec![255u8; 768]);
}

#[test]
fn invert_flips_drawn_pixels_only() {
    let mut canvas = with_image(3, 3);
    canvas.blend_pixel(1, 1, [10, 20, 30, 255]);
    canvas.drawing_layer[0..4].copy_from_slice(&[1, 2, 3, 0]);
    canvas.filter_invert();
    assert!(canvas.dirty);
    assert_eq!(drawn_pixel(&canvas, 1, 1), [245, 235, 225, 255]);
    assert_eq!(drawn_pixel(&canvas, 0, 0), [1, 2, 3, 0]);
    assert_eq!(drawn_pixel(&canvas, 2, 2), [0, 0, 0, 0]);
    // The composite buffer is rebuilt.
    assert_eq!(canvas.get_pixel(1, 1), Some([245, 235, 225, 100]));
    assert_eq!(canvas.get_pixel(0, 0), Some([100, 100, 100, 100]));
}

#[test]
fn grayscale_takes_the_luminosity() {
    let mut canvas = with_image(2, 2);
    canvas.blend_pixel(0, 0, [255, 0, 0, 255]);
    canvas.blend_pixel(1, 0, [10, 20, 30, 255]);
    canvas.filter_grayscale();
    assert_eq!(drawn_pixel(&canvas, 0, 0), [76, 76, 76, 255]);
    assert_eq!(drawn_pixel(&canvas, 1, 0), [18, 18, 18, 255]);
    assert_eq!(drawn_pixel(&canvas, 1, 1), [0, 0, 0, 0]);
    assert_eq!(canvas.get_pixel(0, 0), Some([76, 76, 76, 100]));
}

#[test]
fn brightness_and_contrast_adjust_drawn_pixels() {
    let mut canvas = with_image(2, 2);
    canvas.blend_pixel(0, 0, [200, 100, 128, 255]);
    canvas.filter_brightness_contrast(0, 100);
    assert_eq!(drawn_pixel(&canvas, 0, 0), [255, 64, 128, 255]);
    canvas.filter_brightness_contrast(-14, 0);
    assert_eq!(drawn_pixel(&canvas, 0, 0), [241, 50, 114, 255]);
    assert_eq!(drawn_pixel(&canvas, 1, 1), [0, 0, 0, 0]);
}

#[test]
fn blur_averages_over_the_clipped_window() {
    let mut canvas = with_image(3, 3);
    canvas.blend_pixel(0, 0, [90, 0, 0, 255]);
    canvas.blend_pixel(1, 1, [30, 60, 120, 255]);
    canvas.filter_blur(1);
    // Window of (0, 0): 4 pixels, of (1, 1): 9 pixels.
    assert_eq!(drawn_pixel(&canvas, 0, 0), [30, 15, 30, 127]);
    assert_eq!(drawn_pixel(&canvas, 1, 1), [13, 6, 13, 56]);
    // Pixels that nobody drew on stay untouched.
    assert_eq!(drawn_pixel(&canvas, 1, 0), [0, 0, 0, 0]);
    assert_eq!(drawn_pixel(&canvas, 2, 2), [0, 0, 0, 0]);
}

#[test]
fn blur_of_radius_zero_does_nothing() {
    let mut canvas = with_image(3, 3);
    canvas.blend_pixel(1, 1, RED);
    canvas.dirty = false;
    let before = canvas.drawing_layer.clone();
    canvas.filter_blur(0);
    assert!(!canvas.dirty);
    assert_eq!(canvas.drawing_layer, before);
}

#[test]
fn blur_leaves_a_plain_region_as_it_is() {
    let mut canvas = with_image(9, 9);
    canvas.fill_rect(0, 0, 0, 0, RED);
    for y in 0..9 {
        for x in 0..9 {
            canvas.blend_pixel(x, y, [40, 80, 120, 200]);
        }
    }
    let before = canvas.drawing_layer.clone();
    canvas.filter_blur(2);
    assert_eq!(canvas.drawing_layer, before);
    canvas.filter_blur(u32::MAX);
    assert_eq!(canvas.drawing_layer, before);
}

#[test]
fn filters_never_touch_transparent_pixels() {
    let mut canvas = with_image(4, 4);
    canvas.blend_pixel(1, 1, RED);
    canvas.blend_pixel(2, 1, [0, 255, 0, 255]);
    // Colour without alpha: not drawn.
    canvas.drawing_layer[0..4].copy_from_slice(&[50, 60, 70, 0]);
    canvas.filter_invert();
    canvas.filter_grayscale();
    canvas.filter_brightness_contrast(30, 40);
    canvas.filter_blur(1);
    assert_eq!(drawn_pixel(&canvas, 0, 0), [50, 60, 70, 0]);
    for (x, y) in [(3, 3), (0, 1), (3, 0)] {
        assert_eq!(drawn_pixel(&canvas, x, y), [0, 0, 0, 0]);
    }
}

#[test]
fn move_layer_translates_and_drops() {
    let mut canvas = with_image(3, 3);
    canvas.blend_pixel(0, 0, RED);
    canvas.blend_pixel(2, 2, [0, 255, 0, 255]);
    canvas.move_layer(1, 2);
    assert!(canvas.dirty);
    assert_eq!(drawn_pixel(&canvas, 1, 2), RED);
    assert_eq!(drawn_pixel(&canvas, 0, 0), [0, 0, 0, 0]);
    assert_eq!(canvas.drawing_layer.chunks(4).filter(|p| p[3] != 0).count(), 1);
    assert_eq!(canvas.get_pixel(1, 2), Some([255, 0, 0, 100]));
    assert_eq!(canvas.get_pixel(0, 0), Some([100, 100, 100, 100]));
    canvas.move_layer(-1, -2);
    assert_eq!(drawn_pixel(&canvas, 0, 0), RED);
    canvas.move_layer(i32::MIN, i32::MAX);
    assert_eq!(canvas.drawing_layer, vec![0u8; 36]);
}
