use gimp::canvas::Canvas;
use gimp::pointer::window_to_canvas;
use gimp::view::{tight_fits, Zoom};

const WHITE: [u8; 4] = [255, 255, 255, 255];
const RED: [u8; 4] = [255, 0, 0, 255];
const BLUE: [u8; 4] = [0, 0, 255, 255];

#[test]
fn window_positions_scale_to_the_canvas() {
    let canvas = Canvas::new(400, 300);
    assert_eq!(window_to_canvas((100 * 256, 50 * 256), (800, 600), &canvas), Some((12800, 6400)));
    assert_eq!(window_to_canvas((101, 3), (800, 600), &canvas), Some((50, 1)));
    assert_eq!(window_to_canvas((-5, -700), (800, 600), &canvas), Some((0, 0)));
    assert_eq!(window_to_canvas((i64::MAX, i64::MAX), (800, 600), &canvas), Some((399 * 256, 299 * 256)));
    assert_eq!(window_to_canvas((5, 5), (0, 600), &canvas), None);
    assert_eq!(window_to_canvas((5, 5), (800, 0), &canvas), None);
    let empty = Canvas::new(0, 0);
    assert_eq!(window_to_canvas((500, 500), (800, 600), &empty), Some((0, 0)));
}

#[test]
fn tight_buffers_fit_when_their_length_does() {
    assert!(tight_fits(0, u32::MAX));
    assert!(tight_fits(4096, 4096));
    assert!(!tight_fits(u32::MAX, u32::MAX));
}

#[test]
fn zoom_steps_by_a_quarter_up_to_five() {
    let mut zoom = Zoom::unit();
    zoom = zoom.zoom_in();
    assert_eq!(zoom, Zoom { num: 5, den: 4 });
    zoom = zoom.zoom_in();
    assert_eq!(zoom, Zoom { num: 25, den: 16 });
    for _ in 0..5 {
        zoom = zoom.zoom_in();
    }
    assert_eq!(zoom, Zoom { num: 78125, den: 16384 });
    zoom = zoom.zoom_in();
    assert_eq!(zoom, Zoom { num: 5, den: 1 });
    assert_eq!(zoom.zoom_in(), Zoom { num: 5, den: 1 });
    assert_eq!(zoom.zoom_out(), Zoom { num: 4, den: 1 });
}

#[test]
fn zoom_steps_by_a_fifth_down_to_a_tenth() {
    let mut zoom = Zoom::unit();
    zoom = zoom.zoom_out();
    assert_eq!(zoom, Zoom { num: 4, den: 5 });
    assert_eq!(zoom.zoom_in(), Zoom::unit());
    for _ in 0..9 {
        zoom = zoom.zoom_out();
    }
    assert_eq!(zoom, Zoom { num: 1048576, den: 9765625 });
    zoom = zoom.zoom_out();
    assert_eq!(zoom, Zoom { num: 1, den: 10 });
    assert_eq!(zoom.zoom_out(), Zoom { num: 1, den: 10 });
    assert_eq!(zoom.zoom_in(), Zoom { num: 1, den: 8 });
}

#[test]
fn zoom_that_would_overflow_stays() {
    let huge = Zoom { num: u64::MAX, den: u64::MAX };
    assert_eq!(huge.zoom_in(), huge);
    assert_eq!(huge.zoom_out(), huge);
}

#[test]
fn zoom_survives_many_steps() {
    let mut zoom = Zoom::unit();
    for round in 0..200 {
        for _ in 0..(round % 30) {
            zoom = zoom.zoom_in();
        }
        for _ in 0..(round % 41) {
            zoom = zoom.zoom_out();
        }
        assert!(zoom.num > 0 && zoom.den > 0);
        assert!(zoom.num <= 5 * zoom.den && zoom.den <= 10 * zoom.num);
    }
}

#[test]
fn resized_keeps_the_top_left_corner() {
    let mut canvas = Canvas::new(4, 4);
    canvas.paste_image(2, 2, &vec![9u8; 16]);
    canvas.set_pixel(3, 1, RED);
    canvas.set_pixel(1, 3, BLUE);
    let wide = canvas.resized(6, 2);
    assert!(wide.check_wf());
    assert!(wide.dirty);
    assert_eq!((wide.width, wide.height, wide.stride), (6, 2, 256));
    assert_eq!(wide.loaded_image_size, None);
    assert!(wide.drawing_layer.is_empty());
    assert_eq!(wide.get_pixel(0, 0), Some([9, 9, 9, 9]));
    assert_eq!(wide.get_pixel(3, 1), Some(RED));
    assert_eq!(wide.get_pixel(4, 1), Some(WHITE));
    let tall = canvas.resized(2, 70);
    assert_eq!(tall.get_pixel(1, 3), Some(BLUE));
    assert_eq!(tall.get_pixel(1, 4), Some(WHITE));
    assert_eq!(tall.get_pixel(1, 69), Some(WHITE));
    let none = canvas.resized(0, 0);
    assert!(none.pixels.is_empty());
    assert!(Canvas::size_fits(4096, 4096));
    assert!(!Canvas::size_fits(u32::MAX, u32::MAX));
}

#[test]
fn drag_moves_the_layer_by_whole_image_pixels() {
    let mut canvas = Canvas::new(8, 8);
    canvas.zoom_scale = Zoom { num: 2, den: 1 };
    canvas.paste_image(4, 4, &vec![100u8; 64]);
    canvas.blend_pixel(2, 2, RED);
    assert_eq!(&canvas.drawing_layer[20..24], &RED);
    canvas.dirty = false;
    // Less than two canvas pixels: less than an image pixel.
    canvas.drag_layer((0, 0), (511, -511));
    assert!(!canvas.dirty);
    assert_eq!(&canvas.drawing_layer[20..24], &RED);
    // Three canvas pixels right, five up: one image pixel right, two up.
    canvas.drag_layer((256, 2560), (256 + 768, 2560 - 1280));
    assert!(canvas.dirty);
    assert_eq!(&canvas.drawing_layer[20..24], &[0, 0, 0, 0]);
    // From image pixel (1, 1) to (2, -1): out of the image.
    assert_eq!(canvas.drawing_layer, vec![0u8; 64]);
}

#[test]
fn drag_rounds_toward_zero() {
    let mut canvas = Canvas::new(8, 8);
    canvas.paste_image(4, 4, &vec![100u8; 64]);
    canvas.blend_pixel(1, 1, RED);
    canvas.drag_layer((1000, 1000), (1000 - 300, 1000 + 300));
    // One pixel and a bit, both ways: one left, one down.
    assert_eq!(&canvas.drawing_layer[(2 * 4) * 4..(2 * 4) * 4 + 4], &RED);
    canvas.drag_layer((i32::MIN, 0), (i32::MAX, 0));
    assert_eq!(canvas.drawing_layer, vec![0u8; 64]);
}

#[test]
fn eraser_works_left_of_the_pointer_by_the_panel_width() {
    let mut canvas = Canvas::new(40, 12);
    canvas.fill_rect(0, 0, 40, 12, BLUE);
    canvas.dirty = false;
    canvas.erase_stroke(None, ((88 + 5) * 256, 5 * 256), 512);
    assert!(canvas.dirty);
    assert_eq!(canvas.get_pixel(4, 4), Some(WHITE));
    assert_eq!(canvas.get_pixel(5, 5), Some(WHITE));
    assert_eq!(canvas.get_pixel(8, 5), Some(BLUE));
    // A pointer on the panel erases at the left edge.
    canvas.erase_stroke(None, (10 * 256, 10 * 256), 256);
    assert_eq!(canvas.get_pixel(0, 10), Some(WHITE));
    assert_eq!(canvas.get_pixel(1, 10), Some(BLUE));
}

#[test]
fn eraser_stroke_leaves_no_gap() {
    let mut canvas = Canvas::new(40, 12);
    canvas.fill_rect(0, 0, 40, 12, BLUE);
    canvas.erase_stroke(Some(((88 + 2) * 256, 6 * 256)), ((88 + 36) * 256, 6 * 256), 256);
    for x in 2..36 {
        assert_eq!(canvas.get_pixel(x, 5), Some(WHITE), "column {}", x);
        assert_eq!(canvas.get_pixel(x, 6), Some(WHITE), "column {}", x);
    }
    assert_eq!(canvas.get_pixel(20, 3), Some(BLUE));
    assert_eq!(canvas.get_pixel(38, 6), Some(BLUE));
}

#[test]
fn eraser_without_radius_does_nothing() {
    let mut canvas = Canvas::new(40, 12);
    canvas.fill_rect(0, 0, 40, 12, BLUE);
    canvas.dirty = false;
    canvas.erase_stroke(Some((0, 0)), (i32::MAX, i32::MAX), 0);
    canvas.erase_stroke(None, (100 * 256, 5 * 256), -3);
    assert!(!canvas.dirty);
    assert_eq!(canvas.get_pixel(12, 5), Some(BLUE));
}
