//! The state of the editor's input: the tool in use, the brush with its
//! colour and brightness, and what the pointer is doing.
//!
//! Brightness and the three HSV components are in thousandths: 1000 stands
//! for 1.0. Pointer positions and the brush radius are in sub-pixel units,
//! 256 to the pixel.

use vstd::prelude::*;
use crate::brush::Brush;

verus! {

/// The slider that a drag moves.
#[derive(Copy, Clone, Debug, PartialEq, Eq, Structural)]
pub enum SliderDrag {
    Size,
    Brightness,
}

/// The tool that a click on the canvas applies.
#[derive(Copy, Clone, Debug, PartialEq, Eq, Structural)]
pub enum Tool {
    Brush,
    Eraser,
    FillBucket,
    ColorPicker,
    Move,
}

/// Thousandths in one.
pub const UNIT: u32 = 1000;

/// `v` held to `min..=max`.
pub open spec fn clamp_spec(v: int, min: int, max: int) -> int {
    if v < min {
        min
    } else if v > max {
        max
    } else {
        v
    }
}

/// `v` held to `min..=max`.
pub fn clamp_to(v: i64, min: i32, max: i32) -> (held: i32)
    requires
        min <= max,
    ensures
        held == clamp_spec(v as int, min as int, max as int),
{
    if v < min as i64 {
        min
    } else if v > max as i64 {
        max
    } else {
        v as i32
    }
}

/// A channel times a brightness in thousandths, held to `0..=255` and
/// rounded to the nearest integer, halves up.
pub open spec fn shade_channel_spec(c: u8, brightness: int) -> u8 {
    if brightness <= 0 {
        0u8
    } else if c * brightness >= 255 * 1000 {
        255u8
    } else {
        ((2 * (c * brightness) + 1000) / 2000) as u8
    }
}

/// A colour at a brightness: red, green and blue are scaled, alpha is kept.
pub open spec fn shade_spec(color: [u8; 4], brightness: int) -> [u8; 4] {
    [
        shade_channel_spec(color[0], brightness),
        shade_channel_spec(color[1], brightness),
        shade_channel_spec(color[2], brightness),
        color[3],
    ]
}

/// A channel at a brightness.
pub fn shade_channel(c: u8, brightness: i32) -> (out: u8)
    ensures
        out == shade_channel_spec(c, brightness as int),
        brightness == 1000 ==> out == c,
{
    if brightness <= 0 {
        return 0;
    }
    assert(0 <= c * brightness <= 255 * 0x7fff_ffff) by (nonlinear_arith)
        requires
            0 <= c <= 255,
            0 < brightness <= 0x7fff_ffff,
    ;
    let scaled: u64 = c as u64 * brightness as u64;
    if scaled >= 255 * 1000 {
        255
    } else {
        ((2 * scaled + 1000) / 2000) as u8
    }
}

/// A colour at a brightness.
pub fn shade(color: [u8; 4], brightness: i32) -> (out: [u8; 4])
    ensures
        out == shade_spec(color, brightness as int),
{
    let out: [u8; 4] = [
        shade_channel(color[0], brightness),
        shade_channel(color[1], brightness),
        shade_channel(color[2], brightness),
        color[3],
    ];
    assert(out@ =~= shade_spec(color, brightness as int)@);
    out
}

/// The sector of the colour wheel, 0 to 5, that a hue in thousandths of a
/// turn lies in. A full turn is sector 0 again.
pub open spec fn hue_sector(h: int) -> int {
    ((6 * h) % 6000) / 1000
}

/// How far, in thousandths, a hue lies into its sector.
pub open spec fn hue_fraction(h: int) -> int {
    ((6 * h) % 6000) % 1000
}

/// The three levels between which the channels of a colour lie, each in
/// billionths: `v (1 - s)`, `v (1 - s f)` and `v (1 - s (1 - f))`.
pub open spec fn level_p(s: int, v: int) -> int {
    v * (1000 - s) * 1000
}

pub open spec fn level_q(s: int, v: int, f: int) -> int {
    v * (1000000 - s * f)
}

pub open spec fn level_t(s: int, v: int, f: int) -> int {
    v * (1000000 - s * (1000 - f))
}

/// A level in billionths as a channel: held to `0..=1`, times 255, and
/// rounded to the nearest integer.
pub open spec fn level_byte(level: int) -> u8 {
    ((510 * clamp_spec(level, 0, 1000000000) + 1000000000) / 2000000000) as u8
}

/// The colour of a hue, a saturation and a value, each in thousandths.
pub open spec fn hsv_to_rgb_spec(h: int, s: int, v: int) -> (u8, u8, u8) {
    let f = hue_fraction(h);
    let top = level_byte(v * 1000000);
    let p = level_byte(level_p(s, v));
    let q = level_byte(level_q(s, v, f));
    let t = level_byte(level_t(s, v, f));
    let i = hue_sector(h);
    if i == 0 {
        (top, t, p)
    } else if i == 1 {
        (q, top, p)
    } else if i == 2 {
        (p, top, t)
    } else if i == 3 {
        (p, q, top)
    } else if i == 4 {
        (t, p, top)
    } else {
        (top, p, q)
    }
}

/// A level in billionths as a channel.
fn level_to_byte(level: i128) -> (byte: u8)
    ensures
        byte == level_byte(level as int),
{
    let held: i128 = if level < 0 {
        0
    } else if level > 1000000000 {
        1000000000
    } else {
        level
    };
    ((510 * held + 1000000000) / 2000000000) as u8
}

/// The colour of a hue, a saturation and a value, each in thousandths.
/// Levels that saturation or value beyond 1000 push out of `0..=1` are
/// held to it.
pub fn hsv_to_rgb(h: u32, s: u32, v: u32) -> (rgb: [u8; 3])
    ensures
        (rgb[0], rgb[1], rgb[2]) == hsv_to_rgb_spec(h as int, s as int, v as int),
{
    let turn: u64 = (6 * h as u64) % 6000;
    let i: u64 = turn / 1000;
    let f: i128 = (turn % 1000) as i128;
    let s: i128 = s as i128;
    let v: i128 = v as i128;
    assert(0 <= s * f <= 0xffff_ffff * 1000) by (nonlinear_arith)
        requires
            0 <= s <= 0xffff_ffff,
            0 <= f <= 1000,
    ;
    assert(0 <= s * (1000 - f) <= 0xffff_ffff * 1000) by (nonlinear_arith)
        requires
            0 <= s <= 0xffff_ffff,
            0 <= 1000 - f <= 1000,
    ;
    let down: i128 = 1000 - s;
    let fall: i128 = 1000000 - s * f;
    let rise: i128 = 1000000 - s * (1000 - f);
    assert(-0x1_0000_0000 * 0x1_0000_0000 <= v * down <= 0x1_0000_0000 * 0x1_0000_0000)
        by (nonlinear_arith)
        requires
            0 <= v <= 0xffff_ffff,
            -0x1_0000_0000 <= down <= 1000,
    ;
    assert(-0x1_0000_0000 * 0x1_0000_0000_0000 <= v * fall <= 0x1_0000_0000 * 0x1_0000_0000_0000)
        by (nonlinear_arith)
        requires
            0 <= v <= 0xffff_ffff,
            -0x1_0000_0000_0000 <= fall <= 1000000,
    ;
    assert(-0x1_0000_0000 * 0x1_0000_0000_0000 <= v * rise <= 0x1_0000_0000 * 0x1_0000_0000_0000)
        by (nonlinear_arith)
        requires
            0 <= v <= 0xffff_ffff,
            -0x1_0000_0000_0000 <= rise <= 1000000,
    ;
    let top: u8 = level_to_byte(v * 1000000);
    let p: u8 = level_to_byte(v * down * 1000);
    let q: u8 = level_to_byte(v * fall);
    let t: u8 = level_to_byte(v * rise);
    if i == 0 {
        [top, t, p]
    } else if i == 1 {
        [q, top, p]
    } else if i == 2 {
        [p, top, t]
    } else if i == 3 {
        [p, q, top]
    } else if i == 4 {
        [t, p, top]
    } else {
        [top, p, q]
    }
}

/// What the pointer and the keyboard are doing, and the brush they steer.
pub struct InputState {
    /// Whether a stroke, an erasure or a move is under way.
    pub drawing: bool,
    /// Where the pointer was last seen, in sub-pixel units.
    pub last_pos: Option<(i32, i32)>,
    /// The brush as it paints: the base colour at the brightness.
    pub brush: Brush,
    pub base_color: [u8; 4],
    /// In thousandths.
    pub brightness: i32,
    pub slider_dragging: Option<SliderDrag>,
    pub pan_offset: (i32, i32),
    pub shift_pressed: bool,
    pub ctrl_pressed: bool,
    pub current_tool: Tool,
    pub selection_start: Option<(u32, u32)>,
    pub selection_end: Option<(u32, u32)>,
    pub show_color_picker: bool,
    /// Hue, saturation and value of the colour picker, in thousandths.
    pub hue: u32,
    pub sat: u32,
    pub val: u32,
}

impl InputState {
    /// Whether both states agree in everything but the brush, the base
    /// colour and the brightness.
    pub open spec fn same_pointer(&self, other: &InputState) -> bool {
        &&& self.drawing == other.drawing
        &&& self.last_pos == other.last_pos
        &&& self.slider_dragging == other.slider_dragging
        &&& self.pan_offset == other.pan_offset
        &&& self.shift_pressed == other.shift_pressed
        &&& self.ctrl_pressed == other.ctrl_pressed
        &&& self.current_tool == other.current_tool
        &&& self.selection_start == other.selection_start
        &&& self.selection_end == other.selection_end
        &&& self.show_color_picker == other.show_color_picker
    }

    /// Whether both states have the same colour picker values.
    pub open spec fn same_hsv(&self, other: &InputState) -> bool {
        self.hue == other.hue && self.sat == other.sat && self.val == other.val
    }

    /// Whether both states have the same brush colour, base colour and
    /// brightness.
    pub open spec fn same_colour(&self, other: &InputState) -> bool {
        &&& self.brush.color == other.brush.color
        &&& self.base_color == other.base_color
        &&& self.brightness == other.brightness
    }

    /// The state at rest, with the brush tool, the given brush and full
    /// brightness.
    pub fn new(brush: Brush) -> (state: InputState)
        ensures
            !state.drawing,
            state.last_pos is None,
            state.brush == brush,
            state.base_color == brush.color,
            state.brightness == 1000,
            state.slider_dragging is None,
            state.pan_offset == (0i32, 0i32),
            !state.shift_pressed,
            !state.ctrl_pressed,
            state.current_tool == Tool::Brush,
            state.selection_start is None,
            state.selection_end is None,
            !state.show_color_picker,
            state.hue == 0,
            state.sat == 1000,
            state.val == 1000,
    {
        InputState {
            drawing: false,
            last_pos: None,
            base_color: brush.color,
            brightness: 1000,
            brush,
            slider_dragging: None,
            pan_offset: (0, 0),
            shift_pressed: false,
            ctrl_pressed: false,
            current_tool: Tool::Brush,
            selection_start: None,
            selection_end: None,
            show_color_picker: false,
            hue: 0,
            sat: 1000,
            val: 1000,
        }
    }

    /// Ends whatever the pointer was doing and forgets where it was.
    pub fn stop_drawing(&mut self)
        ensures
            *final(self) == (InputState { drawing: false, last_pos: None, ..*old(self) }),
    {
        self.drawing = false;
        self.last_pos = None;
    }

    /// Gives the brush a new base colour, at the present brightness.
    pub fn set_brush_color(&mut self, color: [u8; 4])
        ensures
            final(self).base_color == color,
            final(self).brush.color == shade_spec(color, old(self).brightness as int),
            final(self).brush.radius == old(self).brush.radius,
            final(self).brightness == old(self).brightness,
            final(self).same_pointer(old(self)),
            final(self).same_hsv(old(self)),
    {
        self.base_color = color;
        self.apply_brightness();
    }

    /// Changes the brush radius by `delta`, within `min..=max`.
    pub fn adjust_brush_radius(&mut self, delta: i32, min: i32, max: i32)
        requires
            min <= max,
        ensures
            final(self).brush.radius == clamp_spec(
                old(self).brush.radius + delta,
                min as int,
                max as int,
            ),
            final(self).same_colour(old(self)),
            final(self).same_pointer(old(self)),
            final(self).same_hsv(old(self)),
    {
        self.brush.radius = clamp_to(self.brush.radius as i64 + delta as i64, min, max);
    }

    /// Sets the brush radius, within `min..=max`.
    pub fn set_brush_radius(&mut self, radius: i32, min: i32, max: i32)
        requires
            min <= max,
        ensures
            final(self).brush.radius == clamp_spec(radius as int, min as int, max as int),
            final(self).same_colour(old(self)),
            final(self).same_pointer(old(self)),
            final(self).same_hsv(old(self)),
    {
        self.brush.radius = clamp_to(radius as i64, min, max);
    }

    /// Sets the brightness, within `min..=max`, and shades the brush.
    pub fn set_brightness(&mut self, value: i32, min: i32, max: i32)
        requires
            min <= max,
        ensures
            final(self).brightness == clamp_spec(value as int, min as int, max as int),
            final(self).base_color == old(self).base_color,
            final(self).brush.color == shade_spec(
                old(self).base_color,
                final(self).brightness as int,
            ),
            final(self).brush.radius == old(self).brush.radius,
            final(self).same_pointer(old(self)),
            final(self).same_hsv(old(self)),
    {
        self.brightness = clamp_to(value as i64, min, max);
        self.apply_brightness();
    }

    /// Changes the brightness by `delta`, within `min..=max`, and shades
    /// the brush.
    pub fn adjust_brightness(&mut self, delta: i32, min: i32, max: i32)
        requires
            min <= max,
        ensures
            final(self).brightness == clamp_spec(
                old(self).brightness + delta,
                min as int,
                max as int,
            ),
            final(self).base_color == old(self).base_color,
            final(self).brush.color == shade_spec(
                old(self).base_color,
                final(self).brightness as int,
            ),
            final(self).brush.radius == old(self).brush.radius,
            final(self).same_pointer(old(self)),
            final(self).same_hsv(old(self)),
    {
        self.brightness = clamp_to(self.brightness as i64 + delta as i64, min, max);
        self.apply_brightness();
    }

    /// Says which slider a drag moves, if any. Letting go of a slider
    /// forgets where the pointer was.
    pub fn set_slider_drag(&mut self, target: Option<SliderDrag>)
        ensures
            *final(self) == (InputState {
                slider_dragging: target,
                last_pos: if target is None {
                    None
                } else {
                    old(self).last_pos
                },
                ..*old(self)
            }),
    {
        self.slider_dragging = target;
        if target.is_none() {
            self.last_pos = None;
        }
    }

    /// Gives the brush the base colour at the present brightness.
    fn apply_brightness(&mut self)
        ensures
            final(self).brush.color == shade_spec(old(self).base_color, old(self).brightness as int),
            final(self).brush.radius == old(self).brush.radius,
            final(self).base_color == old(self).base_color,
            final(self).brightness == old(self).brightness,
            final(self).same_pointer(old(self)),
            final(self).same_hsv(old(self)),
    {
        self.brush.color = shade(self.base_color, self.brightness);
    }

    /// Shows the colour picker, or hides it.
    pub fn toggle_color_picker(&mut self)
        ensures
            *final(self) == (InputState {
                show_color_picker: !old(self).show_color_picker,
                ..*old(self)
            }),
    {
        self.show_color_picker = !self.show_color_picker;
    }

    /// Picks a colour by hue, saturation and value, each held to
    /// `0..=1000`, and makes it the opaque base colour of the brush.
    pub fn set_hsv(&mut self, h: i32, s: i32, v: i32)
        ensures
            final(self).hue == clamp_spec(h as int, 0, 1000),
            final(self).sat == clamp_spec(s as int, 0, 1000),
            final(self).val == clamp_spec(v as int, 0, 1000),
            final(self).base_color[3] == 255,
            (final(self).base_color[0], final(self).base_color[1], final(self).base_color[2])
                == hsv_to_rgb_spec(
                final(self).hue as int,
                final(self).sat as int,
                final(self).val as int,
            ),
            final(self).brush.color == shade_spec(
                final(self).base_color,
                old(self).brightness as int,
            ),
            final(self).brush.radius == old(self).brush.radius,
            final(self).brightness == old(self).brightness,
            final(self).same_pointer(old(self)),
    {
        self.hue = clamp_to(h as i64, 0, 1000) as u32;
        self.sat = clamp_to(s as i64, 0, 1000) as u32;
        self.val = clamp_to(v as i64, 0, 1000) as u32;
        let rgb: [u8; 3] = hsv_to_rgb(self.hue, self.sat, self.val);
        self.set_brush_color([rgb[0], rgb[1], rgb[2], 255]);
    }
}

} // verus!
