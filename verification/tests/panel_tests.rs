use gimp::brush::Brush;
use gimp::canvas::Canvas;
use gimp::draw::{draw_ui, panel_patches, Patch};
use gimp::input::{InputState, Tool};
use gimp::panel::{
    brightness_slider_geom, brightness_value_from_x, palette, panel_hit_test, scaled_length,
    size_slider_geom, size_value_from_x, tool_at, PanelAction,
};

/// Whole pixels in sub-pixel units.
fn at(x: i32, y: i32) -> (i32, i32) {
    (x * 256, y * 256)
}

fn hit(x: i32, y: i32) -> Option<PanelAction> {
    panel_hit_test(at(x, y), &Canvas::new(800, 600))
}

#[test]
fn palette_has_eight_colours() {
    assert_eq!(palette(0), [0, 0, 0, 255]);
    assert_eq!(palette(1), [255, 0, 0, 255]);
    assert_eq!(palette(2), [0, 128, 255, 255]);
    assert_eq!(palette(3), [0, 180, 0, 255]);
    assert_eq!(palette(4), [255, 200, 0, 255]);
    assert_eq!(palette(5), [255, 255, 0, 255]);
    assert_eq!(palette(6), [255, 0, 255, 255]);
    assert_eq!(palette(7), [255, 255, 255, 255]);
    assert_eq!(palette(8), [0, 0, 0, 255]);
}

#[test]
fn tools_are_in_button_order() {
    assert_eq!(tool_at(0), Tool::Brush);
    assert_eq!(tool_at(1), Tool::Eraser);
    assert_eq!(tool_at(2), Tool::FillBucket);
    assert_eq!(tool_at(3), Tool::ColorPicker);
    assert_eq!(tool_at(4), Tool::Move);
}

#[test]
fn sliders_lie_below_the_palette() {
    let size = size_slider_geom();
    assert_eq!((size.row_x, size.row_y, size.row_h, size.track_x, size.track_w), (6, 214, 8, 28, 44));
    let bright = brightness_slider_geom();
    assert_eq!((bright.row_x, bright.row_y, bright.row_h, bright.track_x, bright.track_w), (6, 254, 8, 28, 44));
}

#[test]
fn slider_values_follow_the_knob() {
    assert_eq!(size_value_from_x(7168), 256);
    assert_eq!(size_value_from_x(0), 256);
    assert_eq!(size_value_from_x(-50), 256);
    assert_eq!(size_value_from_x(7168 + 8192), 16384);
    assert_eq!(size_value_from_x(i32::MAX), 16384);
    assert_eq!(size_value_from_x(7168 + 4096), 8320);
    assert_eq!(size_value_from_x(7169), 257);
    assert_eq!(brightness_value_from_x(7168), 300);
    assert_eq!(brightness_value_from_x(7168 + 2048), 625);
    assert_eq!(brightness_value_from_x(7168 + 8192), 1600);
}

#[test]
fn clicks_on_the_palette_pick_colours() {
    assert_eq!(hit(10, 6), Some(PanelAction::Color(0)));
    assert_eq!(hit(10, 25), Some(PanelAction::Color(0)));
    assert_eq!(hit(10, 26), None);
    assert_eq!(hit(10, 31), None);
    assert_eq!(hit(0, 32), Some(PanelAction::Color(1)));
    assert_eq!(hit(87, 188), Some(PanelAction::Color(7)));
    assert_eq!(hit(10, 207), Some(PanelAction::Color(7)));
    assert_eq!(hit(10, 208), None);
    assert_eq!(hit(10, 5), None);
}

#[test]
fn clicks_on_the_sliders_set_values() {
    assert_eq!(hit(28, 214), Some(PanelAction::SizeValue(256)));
    assert_eq!(hit(50, 221), Some(PanelAction::SizeValue(11344)));
    assert_eq!(hit(71, 214), Some(PanelAction::SizeValue(16384)));
    assert_eq!(hit(27, 214), None);
    assert_eq!(hit(72, 214), None);
    assert_eq!(hit(50, 222), None);
    assert_eq!(hit(28, 254), Some(PanelAction::Brightness(300)));
    assert_eq!(hit(44, 261), Some(PanelAction::Brightness(950)));
    assert_eq!(hit(44, 262), None);
}

#[test]
fn clicks_on_the_button_pairs() {
    assert_eq!(hit(0, 228), Some(PanelAction::CanvasSmaller));
    assert_eq!(hit(40, 247), Some(PanelAction::CanvasSmaller));
    assert_eq!(hit(41, 228), None);
    assert_eq!(hit(47, 228), None);
    assert_eq!(hit(48, 228), Some(PanelAction::CanvasLarger));
    assert_eq!(hit(87, 228), Some(PanelAction::CanvasLarger));
    assert_eq!(hit(10, 248), None);
    assert_eq!(hit(10, 430), Some(PanelAction::FileImport));
    assert_eq!(hit(60, 449), Some(PanelAction::FileExport));
    assert_eq!(hit(44, 440), None);
    assert_eq!(hit(10, 456), Some(PanelAction::FileSave));
    assert_eq!(hit(60, 475), Some(PanelAction::FileOpen));
    assert_eq!(hit(60, 476), None);
}

#[test]
fn clicks_on_the_tool_buttons() {
    assert_eq!(hit(6, 284), Some(PanelAction::Tool(Tool::Brush)));
    assert_eq!(hit(81, 307), Some(PanelAction::Tool(Tool::Brush)));
    assert_eq!(hit(5, 284), None);
    assert_eq!(hit(82, 284), None);
    assert_eq!(hit(40, 308), None);
    assert_eq!(hit(40, 312), Some(PanelAction::Tool(Tool::Eraser)));
    assert_eq!(hit(40, 340), Some(PanelAction::Tool(Tool::FillBucket)));
    assert_eq!(hit(40, 368), Some(PanelAction::Tool(Tool::ColorPicker)));
    assert_eq!(hit(40, 419), Some(PanelAction::Tool(Tool::Move)));
    assert_eq!(hit(40, 420), None);
}

#[test]
fn clicks_off_the_panel_mean_nothing() {
    assert_eq!(hit(88, 10), None);
    assert_eq!(hit(10, 600), None);
    assert_eq!(panel_hit_test((-1, 2560), &Canvas::new(800, 600)), None);
    assert_eq!(panel_hit_test((2560, -1), &Canvas::new(800, 600)), None);
    assert_eq!(panel_hit_test(at(10, 10), &Canvas::new(800, 10)), None);
    // Any point of a pixel counts for the pixel.
    assert_eq!(panel_hit_test((2560 + 255, 6 * 256 + 255), &Canvas::new(800, 600)), Some(PanelAction::Color(0)));
}

#[test]
fn canvas_sides_scale_in_steps() {
    assert_eq!(scaled_length(800, 3, 4), 600);
    assert_eq!(scaled_length(800, 5, 4), 1000);
    assert_eq!(scaled_length(601, 3, 4), 451);
    assert_eq!(scaled_length(1, 3, 4), 1);
    assert_eq!(scaled_length(0, 5, 4), 1);
    assert_eq!(scaled_length(2, 5, 4), 3);
    assert_eq!(scaled_length(3, 5, 4), 4);
    assert_eq!(scaled_length(7, 0, 4), 1);
    assert_eq!(scaled_length(u32::MAX, 5, 4), u32::MAX);
    assert_eq!(scaled_length(u32::MAX, u32::MAX, 1), u32::MAX);
}

#[test]
fn panel_is_a_list_of_patches() {
    let brush = Brush { radius: 1536, color: [9, 8, 7, 255] };
    let patches = panel_patches(800, 600, None, &brush, 1000, Tool::Eraser);
    assert_eq!(patches.len(), 156);
    assert_eq!(patches[0], Patch { x: 0, y: 0, w: 88, h: 600, color: [230, 230, 230, 255] });
    assert_eq!(patches[1], Patch { x: 6, y: 6, w: 76, h: 20, color: [0, 0, 0, 255] });
    assert_eq!(patches[8], Patch { x: 6, y: 188, w: 76, h: 20, color: [255, 255, 255, 255] });
    // The label S begins with the five pixels of its top row.
    assert_eq!(patches[9], Patch { x: 6, y: 215, w: 1, h: 1, color: [30, 30, 30, 255] });
    assert_eq!(patches[13], Patch { x: 10, y: 215, w: 1, h: 1, color: [30, 30, 30, 255] });
    assert_eq!(patches[14], Patch { x: 6, y: 216, w: 1, h: 1, color: [30, 30, 30, 255] });
    // Minus, plus, track and knob of the size slider.
    assert_eq!(patches[26], Patch { x: 20, y: 218, w: 6, h: 1, color: [30, 30, 30, 255] });
    assert_eq!(patches[27], Patch { x: 64, y: 218, w: 6, h: 1, color: [30, 30, 30, 255] });
    assert_eq!(patches[28], Patch { x: 67, y: 215, w: 1, h: 6, color: [30, 30, 30, 255] });
    assert_eq!(patches[29], Patch { x: 28, y: 214, w: 44, h: 8, color: [200, 200, 200, 255] });
    assert_eq!(patches[30], Patch { x: 31, y: 214, w: 12, h: 8, color: [60, 60, 60, 255] });
    assert_eq!(patches[31], Patch { x: 6, y: 228, w: 35, h: 20, color: [200, 200, 200, 255] });
    assert_eq!(patches[32], Patch { x: 47, y: 228, w: 35, h: 20, color: [120, 120, 120, 255] });
    // The knob of the brightness slider: (1000 - 300) / 1300 of 32 pixels.
    assert_eq!(patches[53], Patch { x: 45, y: 254, w: 12, h: 8, color: [60, 60, 60, 255] });
    // The preview of a brush 12 pixels across.
    assert_eq!(patches[54], Patch { x: 38, y: 268, w: 12, h: 10, color: [9, 8, 7, 255] });
    // The brush button, not in use, and the S of its name.
    assert_eq!(patches[55], Patch { x: 6, y: 284, w: 76, h: 24, color: [180, 180, 180, 255] });
    assert_eq!(patches[56], Patch { x: 31, y: 291, w: 3, h: 1, color: [0, 0, 0, 255] });
    // The eraser button, in use.
    assert_eq!(patches[61], Patch { x: 6, y: 312, w: 76, h: 24, color: [100, 150, 255, 255] });
    assert_eq!(patches[155], Patch { x: 70, y: 464, w: 2, h: 1, color: [0, 0, 0, 255] });
}

#[test]
fn panel_adapts_to_brush_and_canvas() {
    let thin = Brush { radius: 100, color: [1, 2, 3, 4] };
    let patches = panel_patches(50, 20, Some((40, 20)), &thin, 1000, Tool::Brush);
    assert_eq!(patches.len(), 156);
    assert_eq!(patches[0], Patch { x: 0, y: 0, w: 50, h: 20, color: [230, 230, 230, 255] });
    // A brush of less than a pixel: no width, drawn four pixels wide.
    assert_eq!(patches[54], Patch { x: 44, y: 268, w: 4, h: 10, color: [1, 2, 3, 4] });
    let wide = Brush { radius: 16384, color: [1, 2, 3, 4] };
    let patches = panel_patches(50, 20, None, &wide, 1000, Tool::Brush);
    assert_eq!(patches[30].x, 60);
    assert_eq!(patches[54], Patch { x: 6, y: 268, w: 76, h: 10, color: [1, 2, 3, 4] });
    let negative = Brush { radius: -5, color: [1, 2, 3, 4] };
    let patches = panel_patches(50, 20, None, &negative, 0, Tool::Brush);
    assert_eq!(patches[30].x, 28);
    assert_eq!(patches[53].x, 28);
    assert_eq!(patches[54].w, 4);
}

#[test]
fn panel_names_the_size_of_a_large_image() {
    let brush = Brush { radius: 1536, color: [0, 0, 0, 255] };
    let patches = panel_patches(800, 600, Some((1024, 100)), &brush, 1000, Tool::Brush);
    assert_eq!(patches.len(), 161);
    // The x stands after the four digits of the width.
    assert_eq!(patches[156], Patch { x: 32, y: 482, w: 1, h: 2, color: [0, 0, 0, 255] });
    assert_eq!(patches[160], Patch { x: 35, y: 486, w: 1, h: 2, color: [0, 0, 0, 255] });
    let patches = panel_patches(800, 600, Some((9, 601)), &brush, 1000, Tool::Brush);
    assert_eq!(patches[156].x, 14);
    assert_eq!(panel_patches(800, 600, Some((800, 600)), &brush, 1000, Tool::Brush).len(), 156);
    let patches = panel_patches(800, 600, Some((u32::MAX, 1)), &brush, 1000, Tool::Brush);
    assert_eq!(patches[156].x, 68);
}

#[test]
fn fill_patches_fills_in_order() {
    let mut canvas = Canvas::new(4, 4);
    canvas.fill_patches(&vec![
        Patch { x: 0, y: 0, w: 3, h: 3, color: [1, 1, 1, 255] },
        Patch { x: 1, y: 1, w: 9, h: 1, color: [2, 2, 2, 255] },
        Patch { x: 0, y: 0, w: 0, h: 4, color: [3, 3, 3, 255] },
    ]);
    assert_eq!(canvas.get_pixel(0, 0), Some([1, 1, 1, 255]));
    assert_eq!(canvas.get_pixel(1, 1), Some([2, 2, 2, 255]));
    assert_eq!(canvas.get_pixel(3, 1), Some([2, 2, 2, 255]));
    assert_eq!(canvas.get_pixel(3, 3), Some([255, 255, 255, 255]));
    let mut untouched = Canvas::new(4, 4);
    untouched.fill_patches(&Vec::new());
    assert!(!untouched.dirty);
}

#[test]
fn draw_ui_paints_the_panel() {
    let mut canvas = Canvas::new(120, 500);
    let brush = Brush { radius: 1536, color: [9, 8, 7, 255] };
    let mut input = InputState::new(brush);
    input.current_tool = Tool::Move;
    draw_ui(&mut canvas, &brush, 1000, &input);
    assert!(canvas.dirty);
    assert_eq!(canvas.get_pixel(0, 0), Some([230, 230, 230, 255]));
    assert_eq!(canvas.get_pixel(10, 10), Some([0, 0, 0, 255]));
    assert_eq!(canvas.get_pixel(10, 40), Some([255, 0, 0, 255]));
    assert_eq!(canvas.get_pixel(87, 499), Some([230, 230, 230, 255]));
    assert_eq!(canvas.get_pixel(88, 10), Some([255, 255, 255, 255]));
    assert_eq!(canvas.get_pixel(35, 217), Some([60, 60, 60, 255]));
    assert_eq!(canvas.get_pixel(60, 217), Some([200, 200, 200, 255]));
    assert_eq!(canvas.get_pixel(40, 270), Some([9, 8, 7, 255]));
    // The button of the tool in use is highlighted.
    assert_eq!(canvas.get_pixel(70, 400), Some([100, 150, 255, 255]));
    assert_eq!(canvas.get_pixel(70, 290), Some([180, 180, 180, 255]));
    // The I of "Import" is two pixels wide.
    assert_eq!(canvas.get_pixel(11, 436), Some([0, 0, 0, 255]));
    assert_eq!(canvas.get_pixel(12, 441), Some([0, 0, 0, 255]));
    assert_eq!(canvas.get_pixel(10, 436), Some([170, 170, 200, 255]));
}
