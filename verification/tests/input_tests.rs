use gimp::brush::Brush;
use gimp::input::{clamp_to, hsv_to_rgb, shade, shade_channel, InputState, SliderDrag, Tool};

fn state() -> InputState {
    InputState::new(Brush { radius: 1536, color: [200, 100, 50, 255] })
}

#[test]
fn new_state_is_at_rest() {
    let s = state();
    assert!(!s.drawing);
    assert_eq!(s.last_pos, None);
    assert_eq!(s.brush.radius, 1536);
    assert_eq!(s.brush.color, [200, 100, 50, 255]);
    assert_eq!(s.base_color, [200, 100, 50, 255]);
    assert_eq!(s.brightness, 1000);
    assert_eq!(s.slider_dragging, None);
    assert_eq!(s.pan_offset, (0, 0));
    assert!(!s.shift_pressed && !s.ctrl_pressed);
    assert_eq!(s.current_tool, Tool::Brush);
    assert_eq!((s.selection_start, s.selection_end), (None, None));
    assert!(!s.show_color_picker);
    assert_eq!((s.hue, s.sat, s.val), (0, 1000, 1000));
}

#[test]
fn clamp_holds_to_the_bounds() {
    assert_eq!(clamp_to(5, 0, 10), 5);
    assert_eq!(clamp_to(-5, 0, 10), 0);
    assert_eq!(clamp_to(50, 0, 10), 10);
    assert_eq!(clamp_to(i64::MAX, -3, -3), -3);
}

#[test]
fn shade_scales_and_rounds() {
    assert_eq!(shade_channel(200, 1000), 200);
    assert_eq!(shade_channel(200, 1600), 255);
    assert_eq!(shade_channel(100, 1600), 160);
    assert_eq!(shade_channel(50, 300), 15);
    // 1.5 and 2.5 round up.
    assert_eq!(shade_channel(1, 1500), 2);
    assert_eq!(shade_channel(5, 500), 3);
    assert_eq!(shade_channel(200, 0), 0);
    assert_eq!(shade_channel(200, -1000), 0);
    assert_eq!(shade_channel(255, i32::MAX), 255);
    assert_eq!(shade([200, 100, 50, 77], 1600), [255, 160, 80, 77]);
}

#[test]
fn brightness_shades_the_brush() {
    let mut s = state();
    s.set_brightness(1600, 300, 1600);
    assert_eq!(s.brightness, 1600);
    assert_eq!(s.brush.color, [255, 160, 80, 255]);
    assert_eq!(s.base_color, [200, 100, 50, 255]);
    s.set_brightness(0, 300, 1600);
    assert_eq!(s.brightness, 300);
    assert_eq!(s.brush.color, [60, 30, 15, 255]);
    s.adjust_brightness(200, 300, 1600);
    assert_eq!(s.brightness, 500);
    assert_eq!(s.brush.color, [100, 50, 25, 255]);
    s.adjust_brightness(i32::MAX, 300, 1600);
    assert_eq!(s.brightness, 1600);
    s.set_brush_color([10, 20, 30, 40]);
    assert_eq!(s.base_color, [10, 20, 30, 40]);
    assert_eq!(s.brush.color, [16, 32, 48, 40]);
}

#[test]
fn radius_stays_within_bounds() {
    let mut s = state();
    s.adjust_brush_radius(256, 256, 16384);
    assert_eq!(s.brush.radius, 1792);
    s.adjust_brush_radius(-100000, 256, 16384);
    assert_eq!(s.brush.radius, 256);
    s.adjust_brush_radius(i32::MAX, 256, 16384);
    assert_eq!(s.brush.radius, 16384);
    s.set_brush_radius(700, 256, 16384);
    assert_eq!(s.brush.radius, 700);
    s.set_brush_radius(i32::MIN, 256, 16384);
    assert_eq!(s.brush.radius, 256);
    assert_eq!(s.brush.color, [200, 100, 50, 255]);
}

#[test]
fn stop_drawing_forgets_the_pointer() {
    let mut s = state();
    s.drawing = true;
    s.last_pos = Some((5, 6));
    s.current_tool = Tool::Eraser;
    s.stop_drawing();
    assert!(!s.drawing);
    assert_eq!(s.last_pos, None);
    assert_eq!(s.current_tool, Tool::Eraser);
}

#[test]
fn slider_drag_is_set_and_released() {
    let mut s = state();
    s.last_pos = Some((5, 6));
    s.set_slider_drag(Some(SliderDrag::Size));
    assert_eq!(s.slider_dragging, Some(SliderDrag::Size));
    assert_eq!(s.last_pos, Some((5, 6)));
    s.set_slider_drag(None);
    assert_eq!(s.slider_dragging, None);
    assert_eq!(s.last_pos, None);
}

#[test]
fn colour_picker_toggles() {
    let mut s = state();
    s.toggle_color_picker();
    assert!(s.show_color_picker);
    s.toggle_color_picker();
    assert!(!s.show_color_picker);
}

#[test]
fn hsv_goes_round_the_colour_wheel() {
    assert_eq!(hsv_to_rgb(0, 1000, 1000), [255, 0, 0]);
    assert_eq!(hsv_to_rgb(333, 1000, 1000), [1, 255, 0]);
    assert_eq!(hsv_to_rgb(500, 1000, 1000), [0, 255, 255]);
    assert_eq!(hsv_to_rgb(1000, 1000, 1000), [255, 0, 0]);
    assert_eq!(hsv_to_rgb(0, 0, 500), [128, 128, 128]);
    assert_eq!(hsv_to_rgb(167, 500, 800), [204, 204, 102]);
    assert_eq!(hsv_to_rgb(700, 1000, 0), [0, 0, 0]);
    // Sector 4 and sector 5.
    assert_eq!(hsv_to_rgb(750, 1000, 1000), [128, 0, 255]);
    assert_eq!(hsv_to_rgb(900, 1000, 1000), [255, 0, 153]);
}

#[test]
fn set_hsv_clamps_and_colours_the_brush() {
    let mut s = state();
    s.set_brightness(500, 300, 1600);
    s.set_hsv(2000, -5, 500);
    assert_eq!((s.hue, s.sat, s.val), (1000, 0, 500));
    assert_eq!(s.base_color, [128, 128, 128, 255]);
    assert_eq!(s.brush.color, [64, 64, 64, 255]);
    s.set_hsv(500, 1000, 1000);
    assert_eq!(s.base_color, [0, 255, 255, 255]);
}
