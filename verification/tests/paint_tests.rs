use gimp::brush::{steps_along, Brush};
use gimp::canvas::Canvas;
use gimp::paint::disc_holds;
use gimp::view::Zoom;

const WHITE: [u8; 4] = [255, 255, 255, 255];
const RED: [u8; 4] = [255, 0, 0, 255];
const BLUE: [u8; 4] = [0, 0, 255, 255];

/// Whole pixels in sub-pixel units.
fn px(v: i32) -> i32 {
    v * 256
}

fn count(canvas: &Canvas, color: [u8; 4]) -> usize {
    let mut n = 0;
    for y in 0..canvas.height {
        for x in 0..canvas.width {
            if canvas.get_pixel(x, y) == Some(color) {
                n += 1;
            }
        }
    }
    n
}

#[test]
fn disc_holds_pixels_by_their_centre() {
    // Centre at the corner (2, 2), radius 1 pixel: the four pixels around
    // it have their centres at distance sqrt(0.5).
    for (x, y) in [(1, 1), (2, 1), (1, 2), (2, 2)] {
        assert!(disc_holds(x, y, px(2), px(2), px(1)));
    }
    assert!(!disc_holds(0, 1, px(2), px(2), px(1)));
    assert!(!disc_holds(3, 2, px(2), px(2), px(1)));
    // Exactly on the rim: centre (2.5, 2.5), pixel (4, 2) at distance 2.
    assert!(disc_holds(4, 2, 640, 640, 512));
    assert!(!disc_holds(4, 2, 640, 640, 511));
}

#[test]
fn stamp_touches_exactly_the_disc() {
    let mut canvas = Canvas::new(9, 9);
    canvas.stamp_circle(px(4) + 128, px(4) + 128, px(2), RED);
    assert!(canvas.dirty);
    for y in 0..9i32 {
        for x in 0..9i32 {
            let inside = (x - 4) * (x - 4) + (y - 4) * (y - 4) <= 4;
            let want = if inside { RED } else { WHITE };
            assert_eq!(canvas.get_pixel(x as u32, y as u32), Some(want));
        }
    }
    assert_eq!(count(&canvas, RED), 13);
}

#[test]
fn stamp_is_clipped_to_the_canvas() {
    let mut canvas = Canvas::new(4, 4);
    canvas.stamp_circle(0, 0, px(2), RED);
    // Centres within 2 of the corner (0, 0): those of (0,0), (1,0), (0,1);
    // that of (1,1) is sqrt(4.5) away.
    assert_eq!(count(&canvas, RED), 3);
    assert_eq!(canvas.get_pixel(1, 0), Some(RED));
    assert_eq!(canvas.get_pixel(0, 1), Some(RED));
    assert_eq!(canvas.get_pixel(1, 1), Some(WHITE));
    assert_eq!(canvas.get_pixel(2, 0), Some(WHITE));
    let mut far = Canvas::new(4, 4);
    far.stamp_circle(px(-10), px(2), px(3), RED);
    far.stamp_circle(px(2), px(50), px(3), RED);
    far.stamp_circle(i32::MAX, i32::MIN, i32::MAX, RED);
    assert_eq!(count(&far, RED), 0);
    assert!(!far.dirty);
}

#[test]
fn stamp_of_no_radius_changes_nothing() {
    let mut canvas = Canvas::new(4, 4);
    canvas.stamp_circle(px(2), px(2), 0, RED);
    canvas.stamp_circle(px(2), px(2), -5, RED);
    assert!(!canvas.dirty);
    assert_eq!(canvas.pixels, vec![255u8; 1024]);
}

#[test]
fn stamp_blends_once_per_canvas_pixel_into_the_layer() {
    let mut canvas = Canvas::new(8, 8);
    canvas.zoom_scale = Zoom { num: 2, den: 1 };
    canvas.paste_image(4, 4, &vec![100u8; 64]);
    // Covers canvas pixels (2..4, 2..4), all over image pixel (1, 1).
    canvas.stamp_circle(px(3), px(3), px(1), [200, 0, 50, 128]);
    assert_eq!(canvas.get_pixel(2, 2), Some([150, 50, 75, 114]));
    assert_eq!(canvas.get_pixel(3, 3), Some([150, 50, 75, 114]));
    assert_eq!(canvas.get_pixel(4, 3), Some([100, 100, 100, 100]));
    // Four blends of alpha 128 into transparent black:
    // alpha 64, 96, 112, 120; red 100, 150, 175, 188.
    assert_eq!(&canvas.drawing_layer[20..24], &[188, 0, 47, 120]);
    assert_eq!(canvas.drawing_layer.iter().filter(|b| **b != 0).count(), 3);
}

#[test]
fn erase_shows_the_background_and_clears_the_layer() {
    let mut canvas = Canvas::new(6, 6);
    canvas.paste_image(4, 4, &vec![100u8; 64]);
    canvas.stamp_circle(px(2), px(2), px(3), RED);
    canvas.dirty = false;
    canvas.erase_circle(px(2), px(2), px(1));
    assert!(canvas.dirty);
    for (x, y) in [(1, 1), (2, 1), (1, 2), (2, 2)] {
        assert_eq!(canvas.get_pixel(x, y), Some([100, 100, 100, 100]));
        let i = ((y * 4 + x) * 4) as usize;
        assert_eq!(&canvas.drawing_layer[i..i + 4], &[0, 0, 0, 0]);
    }
    assert_eq!(canvas.get_pixel(0, 1), Some(RED));
    assert_eq!(&canvas.drawing_layer[16..20], &RED);
    // Outside the image the background is white.
    canvas.erase_circle(px(5), px(5), px(1));
    assert_eq!(canvas.get_pixel(4, 4), Some(WHITE));
}

#[test]
fn erase_without_image_whitens() {
    let mut canvas = Canvas::new(4, 4);
    canvas.fill_rect(0, 0, 4, 4, BLUE);
    canvas.erase_circle(px(2), px(2), px(1));
    assert_eq!(count(&canvas, WHITE), 4);
    assert_eq!(count(&canvas, BLUE), 12);
}

#[test]
fn erase_of_no_radius_changes_nothing() {
    let mut canvas = Canvas::new(4, 4);
    canvas.erase_circle(px(2), px(2), 0);
    assert!(!canvas.dirty);
    // With a radius the canvas is marked dirty even if nothing is in reach.
    canvas.erase_circle(px(-100), px(2), px(1));
    assert!(canvas.dirty);
    assert_eq!(canvas.pixels, vec![255u8; 1024]);
}

#[test]
fn steps_are_the_length_in_pixels_rounded_up() {
    assert_eq!(steps_along(0, 0), 1);
    assert_eq!(steps_along(100, 0), 1);
    assert_eq!(steps_along(256, 0), 1);
    assert_eq!(steps_along(257, 0), 2);
    assert_eq!(steps_along(0, -512), 2);
    // A 3-4-5 triangle.
    assert_eq!(steps_along(3 * 256, 4 * 256), 5);
    assert_eq!(steps_along(3 * 256, 4 * 256 + 1), 6);
    assert_eq!(steps_along(-(1 << 32), 1 << 32), 23726567);
}

#[test]
fn stroke_leaves_no_gap() {
    let mut canvas = Canvas::new(40, 12);
    let brush = Brush { radius: 256, color: RED };
    brush.stroke(&mut canvas, (px(3), px(3)), (px(36), px(9)));
    // Every column between the ends holds paint.
    for x in 3..36u32 {
        assert!((0..12).any(|y| canvas.get_pixel(x, y) == Some(RED)), "gap at column {}", x);
    }
    assert_eq!(canvas.get_pixel(3, 3), Some(RED));
    assert_eq!(canvas.get_pixel(35, 8), Some(RED));
    assert_eq!(canvas.get_pixel(39, 0), Some(WHITE));
}

#[test]
fn stroke_of_no_length_is_two_stamps_at_one_place() {
    let mut once = Canvas::new(8, 8);
    let mut twice = Canvas::new(8, 8);
    let brush = Brush { radius: px(2), color: [0, 0, 0, 128] };
    brush.stroke(&mut twice, (px(4), px(4)), (px(4), px(4)));
    brush.stamp(&mut once, (px(4), px(4)));
    brush.stamp(&mut once, (px(4), px(4)));
    assert_eq!(once.pixels, twice.pixels);
    // White blended twice with half-transparent black: 127, then 63; the
    // alpha goes from 255 to 191, then to 159.
    assert_eq!(twice.get_pixel(4, 4), Some([63, 63, 63, 159]));
}

#[test]
fn stroke_stamps_at_rounded_down_points() {
    // One and a half pixels to the left: 2 steps, centres at 0, -192, -384
    // sub-pixel units from the start.
    let mut stroked = Canvas::new(8, 3);
    let mut stamped = Canvas::new(8, 3);
    let brush = Brush { radius: 140, color: [0, 0, 0, 128] };
    brush.stroke(&mut stroked, (px(5), 384), (px(5) - 384, 384));
    for cx in [px(5), px(5) - 192, px(5) - 384] {
        stamped.stamp_circle(cx, 384, 140, [0, 0, 0, 128]);
    }
    assert_eq!(stroked.pixels, stamped.pixels);
    assert!(stroked.dirty);
}

#[test]
fn flood_fill_of_a_plain_canvas_fills_all_of_it() {
    for seed in [(0, 0), (7, 7), (3, 5)] {
        let mut canvas = Canvas::new(8, 8);
        canvas.flood_fill(seed.0, seed.1, RED);
        assert!(canvas.dirty);
        assert_eq!(count(&canvas, RED), 64);
        assert!(canvas.pixels.chunks(256).all(|row| row[32..].iter().all(|b| *b == 255)));
    }
}

#[test]
fn flood_fill_with_the_seed_colour_does_nothing() {
    let mut canvas = Canvas::new(8, 8);
    canvas.flood_fill(2, 2, WHITE);
    assert!(!canvas.dirty);
    assert_eq!(canvas.pixels, vec![255u8; 2048]);
    canvas.flood_fill(8, 0, RED);
    canvas.flood_fill(0, 8, RED);
    assert!(!canvas.dirty);
}

#[test]
fn flood_fill_stops_at_other_colours() {
    let mut canvas = Canvas::new(7, 5);
    // A wall in column 3 with a gap nowhere, and a diagonal neighbour.
    canvas.fill_rect(3, 0, 1, 5, BLUE);
    canvas.flood_fill(0, 0, RED);
    assert_eq!(count(&canvas, RED), 15);
    assert_eq!(count(&canvas, BLUE), 5);
    assert_eq!(count(&canvas, WHITE), 15);
    // Diagonal contact does not connect.
    let mut diag = Canvas::new(2, 2);
    diag.set_pixel(1, 0, BLUE);
    diag.set_pixel(0, 1, BLUE);
    diag.flood_fill(0, 0, RED);
    assert_eq!(diag.get_pixel(0, 0), Some(RED));
    assert_eq!(diag.get_pixel(1, 1), Some(WHITE));
}

#[test]
fn flood_fill_goes_around_corners() {
    let mut canvas = Canvas::new(5, 5);
    // A spiral wall: the region winds from (0, 0) to the centre.
    canvas.fill_rect(0, 1, 4, 1, BLUE);
    canvas.fill_rect(3, 2, 1, 2, BLUE);
    canvas.fill_rect(1, 3, 2, 1, BLUE);
    canvas.flood_fill(0, 0, RED);
    assert_eq!(canvas.get_pixel(4, 4), Some(RED));
    assert_eq!(canvas.get_pixel(0, 2), Some(RED));
    assert_eq!(canvas.get_pixel(1, 2), Some(RED));
    assert_eq!(canvas.get_pixel(2, 2), Some(RED));
    assert_eq!(count(&canvas, BLUE), 8);
    assert_eq!(count(&canvas, RED), 17);
}

#[test]
fn flood_fill_writes_the_layer_under_the_region() {
    let mut canvas = Canvas::new(6, 6);
    canvas.paste_image(4, 4, &vec![100u8; 64]);
    canvas.dirty = false;
    // The image is one region; the white margin is another.
    canvas.flood_fill(1, 1, RED);
    assert_eq!(count(&canvas, RED), 16);
    assert_eq!(count(&canvas, WHITE), 20);
    assert!(canvas.drawing_layer.chunks(4).all(|p| p == RED));
    canvas.flood_fill(5, 5, BLUE);
    assert_eq!(count(&canvas, BLUE), 20);
    assert!(canvas.drawing_layer.chunks(4).all(|p| p == RED));
}
