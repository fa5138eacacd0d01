//! The tool panel at the left edge of the canvas: where its controls lie,
//! and what a click on it means.
//!
//! Lengths are in canvas pixels. Pointer positions, brush radii and slider
//! values for the brush size are in sub-pixel units, 256 to the pixel;
//! brightness is in thousandths.

use vstd::prelude::*;
use crate::pixel::floor_quotient;
use crate::canvas::Canvas;
use crate::input::Tool;
use crate::input::clamp_spec;

verus! {

pub const PANEL_WIDTH: u32 = 88;

pub const UI_MARGIN: u32 = 6;

pub const UI_BUTTON_H: u32 = 20;

pub const UI_GAP: u32 = 6;

pub const SLIDER_H: u32 = 8;

pub const SLIDER_LABEL_W: u32 = 12;

pub const SLIDER_ICON_W: u32 = 10;

pub const SLIDER_KNOB_W: u32 = 12;

/// Height of a tool button, and the gap below it.
pub const TOOL_BUTTON_H: u32 = 24;

pub const TOOL_GAP: u32 = 4;

/// Brush radius at the start, and its bounds: 6, 1 and 64 pixels.
pub const BRUSH_RADIUS: i32 = 1536;

pub const BRUSH_RADIUS_MIN: i32 = 256;

pub const BRUSH_RADIUS_MAX: i32 = 16384;

/// Bounds of the brightness: 0.3 and 1.6.
pub const BRIGHT_MIN: i32 = 300;

pub const BRIGHT_MAX: i32 = 1600;

/// Colour of the brush at the start.
pub const BRUSH_COLOR: [u8; 4] = [0, 0, 0, 255];

/// Number of colours of the palette.
pub const PALETTE_LEN: u32 = 8;

/// Colour `i` of the palette as contracts see it; black beyond its end.
pub open spec fn palette_spec(i: int) -> [u8; 4] {
    if i == 1 {
        [255, 0, 0, 255]
    } else if i == 2 {
        [0, 128, 255, 255]
    } else if i == 3 {
        [0, 180, 0, 255]
    } else if i == 4 {
        [255, 200, 0, 255]
    } else if i == 5 {
        [255, 255, 0, 255]
    } else if i == 6 {
        [255, 0, 255, 255]
    } else if i == 7 {
        [255, 255, 255, 255]
    } else {
        [0, 0, 0, 255]
    }
}

/// Colour `i` of the palette: black, red, blue, green, orange, yellow,
/// magenta, white.
pub fn palette(i: u32) -> (color: [u8; 4])
    ensures
        color == palette_spec(i as int),
{
    let color: [u8; 4] = if i == 1 {
        [255, 0, 0, 255]
    } else if i == 2 {
        [0, 128, 255, 255]
    } else if i == 3 {
        [0, 180, 0, 255]
    } else if i == 4 {
        [255, 200, 0, 255]
    } else if i == 5 {
        [255, 255, 0, 255]
    } else if i == 6 {
        [255, 0, 255, 255]
    } else if i == 7 {
        [255, 255, 255, 255]
    } else {
        [0, 0, 0, 255]
    };
    assert(color@ =~= palette_spec(i as int)@);
    color
}

/// The tools in the order of their buttons.
pub open spec fn tool_spec(i: int) -> Tool {
    if i == 0 {
        Tool::Brush
    } else if i == 1 {
        Tool::Eraser
    } else if i == 2 {
        Tool::FillBucket
    } else if i == 3 {
        Tool::ColorPicker
    } else {
        Tool::Move
    }
}

/// The tool of button `i`.
pub fn tool_at(i: u32) -> (tool: Tool)
    ensures
        tool == tool_spec(i as int),
{
    if i == 0 {
        Tool::Brush
    } else if i == 1 {
        Tool::Eraser
    } else if i == 2 {
        Tool::FillBucket
    } else if i == 3 {
        Tool::ColorPicker
    } else {
        Tool::Move
    }
}

/// Where a slider lies: its row, and in it the track that the knob moves
/// on.
#[derive(Copy, Clone)]
pub struct SliderGeom {
    pub row_x: u32,
    pub row_y: u32,
    pub row_h: u32,
    pub track_x: u32,
    pub track_w: u32,
}

/// From the top of one palette button to the top of the next.
pub open spec fn button_pitch() -> int {
    (UI_BUTTON_H + UI_GAP) as int
}

/// From the top of one tool button to the top of the next.
pub open spec fn tool_pitch() -> int {
    (TOOL_BUTTON_H + TOOL_GAP) as int
}

/// Top of the row of the size slider: below the palette.
pub open spec fn size_row_y() -> int {
    UI_MARGIN + button_pitch() * PALETTE_LEN
}

/// Top of the two buttons that resize the canvas.
pub open spec fn resize_row_y() -> int {
    size_row_y() + SLIDER_H + UI_GAP
}

/// Top of the row of the brightness slider.
pub open spec fn brightness_row_y() -> int {
    resize_row_y() + UI_BUTTON_H + UI_GAP
}

/// Top of the bar that previews the brush.
pub open spec fn preview_y() -> int {
    brightness_row_y() + SLIDER_H + UI_GAP
}

/// Top of the first tool button.
pub open spec fn tools_y() -> int {
    preview_y() + UI_BUTTON_H / 2 + UI_GAP
}

/// Top of the buttons to import and to export.
pub open spec fn files_y() -> int {
    tools_y() + 5 * tool_pitch() + UI_GAP
}

/// Top of the buttons to save and to open.
pub open spec fn project_y() -> int {
    files_y() + UI_BUTTON_H + UI_GAP
}

/// Width of the panel inside its margins.
pub open spec fn inner_width() -> int {
    PANEL_WIDTH - 2 * UI_MARGIN
}

/// The geometry of a slider in a row of the given place and width: the
/// track begins after the label and the minus icon, and leaves room for
/// the plus icon; it is at least one pixel wide.
pub open spec fn slider_geom_spec(row_x: int, row_y: int, row_w: int) -> SliderGeom {
    SliderGeom {
        row_x: row_x as u32,
        row_y: row_y as u32,
        row_h: SLIDER_H,
        track_x: (row_x + SLIDER_LABEL_W + SLIDER_ICON_W) as u32,
        track_w: (if row_w - (SLIDER_LABEL_W + 2 * SLIDER_ICON_W) < 1 {
            1
        } else {
            row_w - (SLIDER_LABEL_W + 2 * SLIDER_ICON_W)
        }) as u32,
    }
}

/// The geometry of a slider in a row of the given place and width.
fn slider_geom(row_x: u32, row_y: u32, row_w: u32) -> (geom: SliderGeom)
    requires
        row_x + SLIDER_LABEL_W + SLIDER_ICON_W <= u32::MAX,
    ensures
        geom == slider_geom_spec(row_x as int, row_y as int, row_w as int),
{
    let room: u32 = SLIDER_LABEL_W + SLIDER_ICON_W * 2;
    let track_w: u32 = if row_w <= room {
        1
    } else {
        row_w - room
    };
    SliderGeom {
        row_x,
        row_y,
        row_h: SLIDER_H,
        track_x: row_x + SLIDER_LABEL_W + SLIDER_ICON_W,
        track_w,
    }
}

/// The slider of the brush size.
pub fn size_slider_geom() -> (geom: SliderGeom)
    ensures
        geom == slider_geom_spec(UI_MARGIN as int, size_row_y(), inner_width()),
        geom == (SliderGeom { row_x: 6, row_y: 214, row_h: 8, track_x: 28, track_w: 44 }),
{
    let row_y: u32 = UI_MARGIN + (UI_BUTTON_H + UI_GAP) * PALETTE_LEN;
    slider_geom(UI_MARGIN, row_y, PANEL_WIDTH - UI_MARGIN * 2)
}

/// The slider of the brightness.
pub fn brightness_slider_geom() -> (geom: SliderGeom)
    ensures
        geom == slider_geom_spec(UI_MARGIN as int, brightness_row_y(), inner_width()),
        geom == (SliderGeom { row_x: 6, row_y: 254, row_h: 8, track_x: 28, track_w: 44 }),
{
    let row_y: u32 = UI_MARGIN + (UI_BUTTON_H + UI_GAP) * PALETTE_LEN + (SLIDER_H + UI_GAP)
        + UI_BUTTON_H + UI_GAP;
    slider_geom(UI_MARGIN, row_y, PANEL_WIDTH - UI_MARGIN * 2)
}

/// The distance, in pixels, that the knob of a slider can travel.
pub open spec fn knob_travel(geom: SliderGeom) -> int {
    if geom.track_w - SLIDER_KNOB_W < 1 {
        1
    } else {
        geom.track_w - SLIDER_KNOB_W
    }
}

/// The value of a slider whose knob is at `x`, given in sub-pixel units:
/// `min` at the start of the track, `max` where the knob's travel ends,
/// and in proportion between them, rounded down.
pub open spec fn slider_value_spec(x: int, geom: SliderGeom, min: int, max: int) -> int {
    let travel = 256 * knob_travel(geom);
    min + ((max - min) * clamp_spec(x - 256 * geom.track_x, 0, travel)) / travel
}

/// The value of a slider whose knob is at `x`.
fn slider_value_from_x(x: i32, geom: SliderGeom, min: i32, max: i32) -> (value: i32)
    requires
        geom.track_w <= 0x10000,
        -0x10_0000 <= min <= max <= 0x10_0000,
    ensures
        value == slider_value_spec(x as int, geom, min as int, max as int),
        min <= value <= max,
{
    let travel: i64 = if geom.track_w <= SLIDER_KNOB_W {
        256
    } else {
        256 * (geom.track_w - SLIDER_KNOB_W) as i64
    };
    let from_start: i64 = x as i64 - 256 * geom.track_x as i64;
    let along: i64 = if from_start < 0 {
        0
    } else if from_start > travel {
        travel
    } else {
        from_start
    };
    let span: i64 = max as i64 - min as i64;
    assert(0 <= span * along <= span * travel <= 0x20_0000 * 0x100_0000) by (nonlinear_arith)
        requires
            0 <= span <= 0x20_0000,
            0 <= along <= travel <= 0x100_0000,
    ;
    let part: i64 = floor_quotient(span * along, travel);
    assert(part <= span) by (nonlinear_arith)
        requires
            part == (span * along) / (travel as int),
            0 <= span * along <= span * travel,
            travel > 0,
    ;
    (min as i64 + part) as i32
}

/// The brush radius that the size slider gives with its knob at `x`.
pub fn size_value_from_x(x: i32) -> (value: i32)
    ensures
        value == slider_value_spec(
            x as int,
            slider_geom_spec(UI_MARGIN as int, size_row_y(), inner_width()),
            BRUSH_RADIUS_MIN as int,
            BRUSH_RADIUS_MAX as int,
        ),
        BRUSH_RADIUS_MIN <= value <= BRUSH_RADIUS_MAX,
{
    slider_value_from_x(x, size_slider_geom(), BRUSH_RADIUS_MIN, BRUSH_RADIUS_MAX)
}

/// The brightness that the brightness slider gives with its knob at `x`.
pub fn brightness_value_from_x(x: i32) -> (value: i32)
    ensures
        value == slider_value_spec(
            x as int,
            slider_geom_spec(UI_MARGIN as int, brightness_row_y(), inner_width()),
            BRIGHT_MIN as int,
            BRIGHT_MAX as int,
        ),
        BRIGHT_MIN <= value <= BRIGHT_MAX,
{
    slider_value_from_x(x, brightness_slider_geom(), BRIGHT_MIN, BRIGHT_MAX)
}

/// What a click on the panel asks for.
#[derive(Copy, Clone, Debug, PartialEq, Eq, Structural)]
pub enum PanelAction {
    /// Take colour `i` of the palette.
    Color(u8),
    /// Set the brush radius.
    SizeValue(i32),
    CanvasSmaller,
    CanvasLarger,
    /// Set the brightness.
    Brightness(i32),
    FileImport,
    FileExport,
    FileSave,
    FileOpen,
    Tool(Tool),
}

/// Whether `v` lies in the `len` units from `start` on.
pub open spec fn within(v: int, start: int, len: int) -> bool {
    start <= v < start + len
}

/// Whether `(x, y)` lies on the track of a slider.
pub open spec fn on_track(geom: SliderGeom, x: int, y: int) -> bool {
    within(y, geom.row_y as int, geom.row_h as int) && within(
        x,
        geom.track_x as int,
        geom.track_w as int,
    )
}

/// Width of each of two buttons that share a row.
pub open spec fn half_button_w() -> int {
    (inner_width() - UI_GAP) / 2
}

/// Which of two buttons that share a row holds column `x`: the left one,
/// the right one, or neither for a column in the gap between them.
pub open spec fn pair_side(x: int) -> Option<bool> {
    let rel = if x < UI_MARGIN {
        0
    } else {
        x - UI_MARGIN
    };
    if rel < half_button_w() {
        Some(true)
    } else if rel > half_button_w() + UI_GAP {
        Some(false)
    } else {
        None
    }
}

/// What a click at pixel `(x, y)` of the panel means. The palette buttons
/// and the button pairs take the whole width of the panel.
pub open spec fn panel_action(x: int, y: int) -> Option<PanelAction> {
    let size = slider_geom_spec(UI_MARGIN as int, size_row_y(), inner_width());
    let bright = slider_geom_spec(UI_MARGIN as int, brightness_row_y(), inner_width());
    if within(y, UI_MARGIN as int, button_pitch() * PALETTE_LEN) && ((y - UI_MARGIN)
        % button_pitch()) < UI_BUTTON_H {
        Some(PanelAction::Color(((y - UI_MARGIN) / button_pitch()) as u8))
    } else if on_track(size, x, y) {
        Some(
            PanelAction::SizeValue(
                slider_value_spec(256 * x, size, BRUSH_RADIUS_MIN as int, BRUSH_RADIUS_MAX as int) as i32,
            ),
        )
    } else if within(y, resize_row_y(), UI_BUTTON_H as int) && pair_side(x) is Some {
        if pair_side(x) == Some(true) {
            Some(PanelAction::CanvasSmaller)
        } else {
            Some(PanelAction::CanvasLarger)
        }
    } else if on_track(bright, x, y) {
        Some(
            PanelAction::Brightness(
                slider_value_spec(256 * x, bright, BRIGHT_MIN as int, BRIGHT_MAX as int) as i32,
            ),
        )
    } else if within(y, tools_y(), 5 * tool_pitch()) && ((y - tools_y()) % tool_pitch())
        < TOOL_BUTTON_H && within(x, UI_MARGIN as int, inner_width()) {
        Some(PanelAction::Tool(tool_spec((y - tools_y()) / tool_pitch())))
    } else if within(y, files_y(), UI_BUTTON_H as int) && pair_side(x) is Some {
        if pair_side(x) == Some(true) {
            Some(PanelAction::FileImport)
        } else {
            Some(PanelAction::FileExport)
        }
    } else if within(y, project_y(), UI_BUTTON_H as int) && pair_side(x) is Some {
        if pair_side(x) == Some(true) {
            Some(PanelAction::FileSave)
        } else {
            Some(PanelAction::FileOpen)
        }
    } else {
        None
    }
}

/// What a click at `pos`, given in sub-pixel units, means: the action of
/// the pixel it falls in, if that lies on the panel and within the height
/// of the canvas.
pub open spec fn panel_hit_spec(pos: (int, int), height: int) -> Option<PanelAction> {
    if pos.0 < 0 || pos.1 < 0 || pos.0 / 256 >= PANEL_WIDTH || pos.1 / 256 >= height {
        None
    } else {
        panel_action(pos.0 / 256, pos.1 / 256)
    }
}

/// Which of two buttons that share a row holds column `x`.
fn side_of_pair(x: u32) -> (side: Option<bool>)
    ensures
        side == pair_side(x as int),
{
    let rel: u32 = if x < UI_MARGIN {
        0
    } else {
        x - UI_MARGIN
    };
    let half: u32 = (PANEL_WIDTH - UI_MARGIN * 2 - UI_GAP) / 2;
    if rel < half {
        Some(true)
    } else if rel > half + UI_GAP {
        Some(false)
    } else {
        None
    }
}

/// What a click at `pos` means, if anything. `pos` is in sub-pixel units.
pub fn panel_hit_test(pos: (i32, i32), canvas: &Canvas) -> (action: Option<PanelAction>)
    ensures
        action == panel_hit_spec((pos.0 as int, pos.1 as int), canvas.height as int),
{
    if pos.0 < 0 || pos.1 < 0 {
        return None;
    }
    let x: u32 = (pos.0 / 256) as u32;
    let y: u32 = (pos.1 / 256) as u32;
    if x >= PANEL_WIDTH || y >= canvas.height {
        return None;
    }
    let pitch: u32 = UI_BUTTON_H + UI_GAP;
    if y >= UI_MARGIN && y < UI_MARGIN + pitch * PALETTE_LEN && (y - UI_MARGIN) % pitch
        < UI_BUTTON_H {
        return Some(PanelAction::Color(((y - UI_MARGIN) / pitch) as u8));
    }
    let size: SliderGeom = size_slider_geom();
    if y >= size.row_y && y < size.row_y + size.row_h && x >= size.track_x && x < size.track_x
        + size.track_w {
        let value: i32 = slider_value_from_x(
            (x * 256) as i32,
            size,
            BRUSH_RADIUS_MIN,
            BRUSH_RADIUS_MAX,
        );
        return Some(PanelAction::SizeValue(value));
    }
    let resize_y: u32 = size.row_y + size.row_h + UI_GAP;
    if y >= resize_y && y < resize_y + UI_BUTTON_H {
        match side_of_pair(x) {
            Some(left) => {
                return Some(
                    if left {
                        PanelAction::CanvasSmaller
                    } else {
                        PanelAction::CanvasLarger
                    },
                );
            },
            None => {},
        }
    }
    let bright: SliderGeom = brightness_slider_geom();
    if y >= bright.row_y && y < bright.row_y + bright.row_h && x >= bright.track_x && x
        < bright.track_x + bright.track_w {
        let value: i32 = slider_value_from_x((x * 256) as i32, bright, BRIGHT_MIN, BRIGHT_MAX);
        return Some(PanelAction::Brightness(value));
    }
    let tools_top: u32 = bright.row_y + bright.row_h + UI_GAP + UI_BUTTON_H / 2 + UI_GAP;
    let tool_pitch: u32 = TOOL_BUTTON_H + TOOL_GAP;
    if y >= tools_top && y < tools_top + 5 * tool_pitch && (y - tools_top) % tool_pitch
        < TOOL_BUTTON_H && x >= UI_MARGIN && x < PANEL_WIDTH - UI_MARGIN {
        return Some(PanelAction::Tool(tool_at((y - tools_top) / tool_pitch)));
    }
    let files_top: u32 = tools_top + 5 * tool_pitch + UI_GAP;
    if y >= files_top && y < files_top + UI_BUTTON_H {
        match side_of_pair(x) {
            Some(left) => {
                return Some(
                    if left {
                        PanelAction::FileImport
                    } else {
                        PanelAction::FileExport
                    },
                );
            },
            None => {},
        }
    }
    let project_top: u32 = files_top + UI_BUTTON_H + UI_GAP;
    if y >= project_top && y < project_top + UI_BUTTON_H {
        match side_of_pair(x) {
            Some(left) => {
                return Some(
                    if left {
                        PanelAction::FileSave
                    } else {
                        PanelAction::FileOpen
                    },
                );
            },
            None => {},
        }
    }
    None
}

/// A length scaled by `num / den` and rounded to the nearest integer,
/// halves up; at least 1 and at most `u32::MAX`. A length of 0 counts as 1.
pub open spec fn scaled_length_spec(len: int, num: int, den: int) -> int {
    let from = if len < 1 {
        1
    } else {
        len
    };
    clamp_spec((2 * (from * num) + den) / (2 * den), 1, u32::MAX as int)
}

/// A side of the canvas after a step of resizing by `num / den`.
pub fn scaled_length(len: u32, num: u32, den: u32) -> (scaled: u32)
    requires
        den > 0,
    ensures
        scaled == scaled_length_spec(len as int, num as int, den as int),
{
    let from: u128 = if len < 1 {
        1
    } else {
        len as u128
    };
    assert(0 <= from * num <= 0xffff_ffff * 0xffff_ffff) by (nonlinear_arith)
        requires
            1 <= from <= 0xffff_ffff,
            0 <= num <= 0xffff_ffff,
    ;
    let scaled: u128 = (2 * (from * num as u128) + den as u128) / (2 * den as u128);
    if scaled < 1 {
        1
    } else if scaled > u32::MAX as u128 {
        u32::MAX
    } else {
        scaled as u32
    }
}

} // verus!
