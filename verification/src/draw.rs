//! Drawing the tool panel: every control is a list of filled rectangles.

use vstd::prelude::*;
use vstd::string::StrSliceExecFns;
use crate::pixel::rgba;
use crate::view::CanvasView;
use crate::canvas::Canvas;
use crate::brush::Brush;
use crate::input::Tool;
use crate::input::InputState;
use crate::input::clamp_spec;
use crate::input::clamp_to;
use crate::panel::SliderGeom;
use crate::panel::slider_geom_spec;
use crate::panel::size_slider_geom;
use crate::panel::brightness_slider_geom;
use crate::panel::palette;
use crate::panel::palette_spec;
use crate::panel::tool_at;
use crate::panel::tool_spec;
use crate::panel::size_row_y;
use crate::panel::brightness_row_y;
use crate::panel::inner_width;
use crate::panel::PANEL_WIDTH;
use crate::panel::UI_MARGIN;
use crate::panel::UI_BUTTON_H;
use crate::panel::UI_GAP;
use crate::panel::SLIDER_H;
use crate::panel::SLIDER_LABEL_W;
use crate::panel::SLIDER_ICON_W;
use crate::panel::SLIDER_KNOB_W;
use crate::panel::TOOL_BUTTON_H;
use crate::panel::TOOL_GAP;
use crate::panel::PALETTE_LEN;
use crate::panel::BRUSH_RADIUS_MIN;
use crate::panel::BRUSH_RADIUS_MAX;
use crate::panel::BRIGHT_MIN;
use crate::panel::BRIGHT_MAX;

verus! {

/// A rectangle to fill with one colour.
#[derive(Copy, Clone, Debug, PartialEq, Eq)]
pub struct Patch {
    pub x: u32,
    pub y: u32,
    pub w: u32,
    pub h: u32,
    pub color: [u8; 4],
}

/// The patch at `(x, y)` as contracts build it.
pub open spec fn patch(x: int, y: int, w: int, h: int, color: [u8; 4]) -> Patch {
    Patch { x: x as u32, y: y as u32, w: w as u32, h: h as u32, color }
}

/// Largest coordinate at which text and icons are drawn: it leaves room,
/// within `u32`, for whatever is drawn from there on.
pub const DRAW_LIMIT: u32 = 0x7fff_ffff;

impl CanvasView {
    /// The canvas with one patch filled.
    pub open spec fn fill_patch(self, p: Patch) -> CanvasView {
        self.fill_rect(p.x as int, p.y as int, p.w as int, p.h as int, rgba(p.color))
    }

    /// The canvas with the patches filled, first to last.
    pub open spec fn fill_patches(self, patches: Seq<Patch>) -> CanvasView
        decreases patches.len(),
    {
        if patches.len() == 0 {
            self
        } else {
            self.fill_patches(patches.drop_last()).fill_patch(patches.last())
        }
    }
}

impl Canvas {
    /// Fills the patches, first to last.
    pub fn fill_patches(&mut self, patches: &Vec<Patch>)
        requires
            old(self).wf(),
        ensures
            final(self).wf(),
            final(self)@ == old(self)@.fill_patches(patches@),
    {
        let ghost before = self@;
        let mut i: usize = 0;
        while i < patches.len()
            invariant
                i <= patches@.len(),
                self.wf(),
                self@ == before.fill_patches(patches@.subrange(0, i as int)),
            decreases patches@.len() - i,
        {
            let p: Patch = patches[i];
            self.fill_rect(p.x, p.y, p.w, p.h, p.color);
            proof {
                let done = patches@.subrange(0, i + 1);
                assert(done.drop_last() =~= patches@.subrange(0, i as int));
                assert(done.last() == patches@[i as int]);
            }
            i += 1;
        }
        assert(patches@.subrange(0, i as int) =~= patches@);
    }
}

/// Adds a patch to a list.
fn put(out: &mut Vec<Patch>, x: u32, y: u32, w: u32, h: u32, color: [u8; 4])
    ensures
        final(out)@ == old(out)@.push(patch(x as int, y as int, w as int, h as int, color)),
{
    out.push(Patch { x, y, w, h, color });
}

/// The strokes of a letter on a grid 4 wide and 6 high, each a rectangle
/// `(dx, dy, w, h)`. Only the letters of the panel's texts have strokes;
/// capitals and small letters look the same.
pub open spec fn letter_strokes(ch: char) -> Seq<(int, int, int, int)> {
    if ch == 'I' || ch == 'i' {
        seq![(1, 0, 2, 6)]
    } else if ch == 'N' || ch == 'n' {
        seq![(0, 0, 1, 6), (3, 0, 1, 6), (1, 2, 2, 1)]
    } else if ch == 'E' || ch == 'e' {
        seq![(0, 0, 4, 1), (0, 2, 4, 1), (0, 5, 4, 1), (0, 0, 1, 6)]
    } else if ch == 'X' || ch == 'x' {
        seq![(0, 0, 1, 2), (3, 0, 1, 2), (1, 2, 2, 2), (0, 4, 1, 2), (3, 4, 1, 2)]
    } else if ch == 'S' || ch == 's' {
        seq![(1, 0, 3, 1), (0, 1, 2, 1), (1, 2, 3, 1), (2, 3, 2, 1), (1, 4, 3, 1)]
    } else if ch == 'V' || ch == 'v' {
        seq![(0, 0, 1, 4), (3, 0, 1, 4), (1, 5, 2, 1)]
    } else if ch == 'O' || ch == 'o' {
        seq![(1, 0, 2, 1), (1, 5, 2, 1), (0, 0, 1, 6), (3, 0, 1, 6)]
    } else if ch == 'P' || ch == 'p' {
        seq![(0, 0, 1, 6), (1, 0, 3, 1), (3, 1, 1, 1), (1, 2, 3, 1)]
    } else {
        Seq::empty()
    }
}

/// The patches of a letter at `(x, y)`.
pub open spec fn letter_patches(x: int, y: int, ch: char, color: [u8; 4]) -> Seq<Patch> {
    Seq::new(
        letter_strokes(ch).len(),
        |i: int|
            patch(
                x + letter_strokes(ch)[i].0,
                y + letter_strokes(ch)[i].1,
                letter_strokes(ch)[i].2,
                letter_strokes(ch)[i].3,
                color,
            ),
    )
}

/// The patches of a text at `(x, y)`, six pixels from letter to letter.
pub open spec fn text_patches(x: int, y: int, text: Seq<char>, color: [u8; 4]) -> Seq<Patch>
    decreases text.len(),
{
    if text.len() == 0 {
        Seq::empty()
    } else {
        text_patches(x, y, text.drop_last(), color) + letter_patches(
            x + 6 * (text.len() - 1),
            y,
            text.last(),
            color,
        )
    }
}

/// Adds the patches of a letter.
fn draw_char(out: &mut Vec<Patch>, x: u32, y: u32, ch: char, color: [u8; 4])
    requires
        x <= DRAW_LIMIT,
        y <= DRAW_LIMIT,
    ensures
        final(out)@ == old(out)@ + letter_patches(x as int, y as int, ch, color),
{
    let ghost start = out@;
    if ch == 'I' || ch == 'i' {
        put(out, x + 1, y, 2, 6, color);
    } else if ch == 'N' || ch == 'n' {
        put(out, x, y, 1, 6, color);
        put(out, x + 3, y, 1, 6, color);
        put(out, x + 1, y + 2, 2, 1, color);
    } else if ch == 'E' || ch == 'e' {
        put(out, x, y, 4, 1, color);
        put(out, x, y + 2, 4, 1, color);
        put(out, x, y + 5, 4, 1, color);
        put(out, x, y, 1, 6, color);
    } else if ch == 'X' || ch == 'x' {
        put(out, x, y, 1, 2, color);
        put(out, x + 3, y, 1, 2, color);
        put(out, x + 1, y + 2, 2, 2, color);
        put(out, x, y + 4, 1, 2, color);
        put(out, x + 3, y + 4, 1, 2, color);
    } else if ch == 'S' || ch == 's' {
        put(out, x + 1, y, 3, 1, color);
        put(out, x, y + 1, 2, 1, color);
        put(out, x + 1, y + 2, 3, 1, color);
        put(out, x + 2, y + 3, 2, 1, color);
        put(out, x + 1, y + 4, 3, 1, color);
    } else if ch == 'V' || ch == 'v' {
        put(out, x, y, 1, 4, color);
        put(out, x + 3, y, 1, 4, color);
        put(out, x + 1, y + 5, 2, 1, color);
    } else if ch == 'O' || ch == 'o' {
        put(out, x + 1, y, 2, 1, color);
        put(out, x + 1, y + 5, 2, 1, color);
        put(out, x, y, 1, 6, color);
        put(out, x + 3, y, 1, 6, color);
    } else if ch == 'P' || ch == 'p' {
        put(out, x, y, 1, 6, color);
        put(out, x + 1, y, 3, 1, color);
        put(out, x + 3, y + 1, 1, 1, color);
        put(out, x + 1, y + 2, 3, 1, color);
    }
    assert(out@ =~= start + letter_patches(x as int, y as int, ch, color));
}

/// Adds the patches of a text in black.
fn draw_button_text(out: &mut Vec<Patch>, x: u32, y: u32, text: &str)
    requires
        x + 6 * text@.len() <= DRAW_LIMIT,
        y <= DRAW_LIMIT,
    ensures
        final(out)@ == old(out)@ + text_patches(x as int, y as int, text@, [0, 0, 0, 255]),
{
    let ghost start = out@;
    let len: usize = text.unicode_len();
    let mut i: usize = 0;
    assert(text@.subrange(0, 0) =~= Seq::empty());
    assert(out@ =~= start + text_patches(x as int, y as int, text@.subrange(0, 0), [0, 0, 0, 255]));
    while i < len
        invariant
            i <= len,
            len == text@.len(),
            x + 6 * len <= DRAW_LIMIT,
            y <= DRAW_LIMIT,
            out@ == start + text_patches(
                x as int,
                y as int,
                text@.subrange(0, i as int),
                [0, 0, 0, 255],
            ),
        decreases len - i,
    {
        let ch: char = text.get_char(i);
        let ghost before = out@;
        draw_char(out, x + 6 * i as u32, y, ch, [0, 0, 0, 255]);
        proof {
            let done = text@.subrange(0, i + 1);
            assert(done.drop_last() =~= text@.subrange(0, i as int));
            assert(done.last() == ch);
            assert(out@ =~= start + text_patches(x as int, y as int, done, [0, 0, 0, 255]));
        }
        i += 1;
    }
    assert(text@.subrange(0, len as int) =~= text@);
}

/// Row `row` of the label of a slider, five pixels wide, the leftmost pixel
/// in the highest of five bits. Only `S` and `B` have a label.
pub open spec fn label_row_spec(ch: char, row: int) -> int {
    if ch == 'S' {
        if row == 0 || row == 2 || row == 4 {
            31
        } else if row == 1 {
            16
        } else {
            1
        }
    } else if ch == 'B' {
        if row == 0 || row == 2 || row == 4 {
            30
        } else {
            17
        }
    } else {
        0
    }
}

/// Whether the label has a pixel at `(col, row)`.
pub open spec fn label_bit(ch: char, col: int, row: int) -> bool {
    (label_row_spec(ch, row) / label_weight(col)) % 2 == 1
}

/// Weight of column `col` in a row of the label.
pub open spec fn label_weight(col: int) -> int {
    if col == 0 {
        16
    } else if col == 1 {
        8
    } else if col == 2 {
        4
    } else if col == 3 {
        2
    } else {
        1
    }
}

/// The first `n` pixels of a label, row by row, as patches of one pixel;
/// the label lies one pixel below `y`.
pub open spec fn label_patches(x: int, y: int, ch: char, color: [u8; 4], n: nat) -> Seq<Patch>
    decreases n,
{
    if n == 0 {
        Seq::empty()
    } else {
        let rest = label_patches(x, y, ch, color, (n - 1) as nat);
        if label_bit(ch, (n - 1) % 5, (n - 1) / 5) {
            rest.push(patch(x + (n - 1) % 5, y + (n - 1) / 5 + 1, 1, 1, color))
        } else {
            rest
        }
    }
}

/// Row `row` of the label of a slider.
fn label_row(ch: char, row: u32) -> (bits: u32)
    ensures
        bits == label_row_spec(ch, row as int),
{
    if ch == 'S' {
        if row == 0 || row == 2 || row == 4 {
            31
        } else if row == 1 {
            16
        } else {
            1
        }
    } else if ch == 'B' {
        if row == 0 || row == 2 || row == 4 {
            30
        } else {
            17
        }
    } else {
        0
    }
}

/// Adds the patches of the label of a slider.
fn draw_glyph(out: &mut Vec<Patch>, x: u32, y: u32, ch: char, color: [u8; 4])
    requires
        x <= DRAW_LIMIT,
        y <= DRAW_LIMIT,
    ensures
        final(out)@ == old(out)@ + label_patches(x as int, y as int, ch, color, 25),
{
    let ghost start = out@;
    let mut n: u32 = 0;
    assert(out@ =~= start + label_patches(x as int, y as int, ch, color, 0));
    while n < 25
        invariant
            n <= 25,
            x <= DRAW_LIMIT,
            y <= DRAW_LIMIT,
            out@ == start + label_patches(x as int, y as int, ch, color, n as nat),
        decreases 25 - n,
    {
        let row: u32 = n / 5;
        let col: u32 = n % 5;
        let weight: u32 = if col == 0 {
            16
        } else if col == 1 {
            8
        } else if col == 2 {
            4
        } else if col == 3 {
            2
        } else {
            1
        };
        if (label_row(ch, row) / weight) % 2 == 1 {
            put(out, x + col, y + row + 1, 1, 1, color);
        }
        n += 1;
        assert(out@ =~= start + label_patches(x as int, y as int, ch, color, n as nat));
    }
}

/// The minus icon of a slider: a bar.
pub open spec fn minus_patches(x: int, y: int, color: [u8; 4]) -> Seq<Patch> {
    seq![patch(x + 2, y + SLIDER_H / 2, SLIDER_ICON_W - 4, 1, color)]
}

/// The plus icon of a slider: a bar and a post.
pub open spec fn plus_patches(x: int, y: int, color: [u8; 4]) -> Seq<Patch> {
    seq![
        patch(x + 2, y + SLIDER_H / 2, SLIDER_ICON_W - 4, 1, color),
        patch(x + 2 + (SLIDER_ICON_W - 4) / 2, y + 1, 1, SLIDER_H - 2, color),
    ]
}

/// Adds the minus icon of a slider.
fn draw_minus_icon(out: &mut Vec<Patch>, x: u32, y: u32, color: [u8; 4])
    requires
        x <= DRAW_LIMIT,
        y <= DRAW_LIMIT,
    ensures
        final(out)@ == old(out)@ + minus_patches(x as int, y as int, color),
{
    let ghost start = out@;
    put(out, x + 2, y + SLIDER_H / 2, SLIDER_ICON_W - 4, 1, color);
    assert(out@ =~= start + minus_patches(x as int, y as int, color));
}

/// Adds the plus icon of a slider.
fn draw_plus_icon(out: &mut Vec<Patch>, x: u32, y: u32, color: [u8; 4])
    requires
        x <= DRAW_LIMIT,
        y <= DRAW_LIMIT,
    ensures
        final(out)@ == old(out)@ + plus_patches(x as int, y as int, color),
{
    let ghost start = out@;
    let w: u32 = SLIDER_ICON_W - 4;
    put(out, x + 2, y + SLIDER_H / 2, w, 1, color);
    put(out, x + 2 + w / 2, y + 1, 1, SLIDER_H - 2, color);
    assert(out@ =~= start + plus_patches(x as int, y as int, color));
}

/// How far from the start of its track the knob of a slider stands for a
/// value: in proportion to where the value lies between `min` and `max`,
/// rounded to the nearest pixel, halves up.
pub open spec fn knob_offset_spec(geom: SliderGeom, value: int, min: int, max: int) -> int {
    let travel = if geom.track_w < SLIDER_KNOB_W {
        0
    } else {
        geom.track_w - SLIDER_KNOB_W
    };
    (2 * (clamp_spec(value, min, max) - min) * travel + (max - min)) / (2 * (max - min))
}

/// The patches of a slider: label, minus and plus icons, track and knob.
pub open spec fn slider_patches(geom: SliderGeom, value: int, min: int, max: int, label: char) -> Seq<
    Patch,
> {
    let icon: [u8; 4] = [30, 30, 30, 255];
    let plus_x = if geom.track_x + geom.track_w < SLIDER_ICON_W {
        0
    } else {
        geom.track_x + geom.track_w - SLIDER_ICON_W
    };
    label_patches(geom.row_x as int, geom.row_y as int, label, icon, 25) + minus_patches(
        geom.row_x + SLIDER_LABEL_W,
        geom.row_y as int,
        icon,
    ) + plus_patches(plus_x, geom.row_y as int, icon) + seq![
        patch(
            geom.track_x as int,
            geom.row_y as int,
            geom.track_w as int,
            geom.row_h as int,
            [200, 200, 200, 255],
        ),
        patch(
            geom.track_x + knob_offset_spec(geom, value, min, max),
            geom.row_y as int,
            if geom.track_w < SLIDER_KNOB_W {
                geom.track_w as int
            } else {
                SLIDER_KNOB_W as int
            },
            geom.row_h as int,
            [60, 60, 60, 255],
        ),
    ]
}

/// How far from the start of its track the knob of a slider stands.
fn knob_offset(geom: SliderGeom, value: i32, min: i32, max: i32) -> (offset: u32)
    requires
        min < max,
    ensures
        offset == knob_offset_spec(geom, value as int, min as int, max as int),
        offset <= geom.track_w,
{
    let travel: u128 = if geom.track_w < SLIDER_KNOB_W {
        0
    } else {
        (geom.track_w - SLIDER_KNOB_W) as u128
    };
    let held: i32 = clamp_to(value as i64, min, max);
    let above: u128 = (held as i64 - min as i64) as u128;
    let span: u128 = (max as i64 - min as i64) as u128;
    assert(0 <= above * travel <= span * travel <= 0xffff_ffff * 0xffff_ffff) by (nonlinear_arith)
        requires
            0 <= above <= span <= 0xffff_ffff,
            0 <= travel <= 0xffff_ffff,
    ;
    assert(2 * (held - min) * travel == 2 * (above * travel)) by (nonlinear_arith)
        requires
            above == held - min,
    ;
    let offset: u128 = (2 * (above * travel) + span) / (2 * span);
    assert(offset <= travel) by (nonlinear_arith)
        requires
            offset == (2 * (above * travel) + span) / (2 * span),
            0 <= above * travel <= span * travel,
            span > 0,
    ;
    offset as u32
}

/// Adds the patches of a slider.
fn draw_slider(out: &mut Vec<Patch>, geom: SliderGeom, value: i32, min: i32, max: i32, label: char)
    requires
        min < max,
        geom.row_x + SLIDER_LABEL_W <= DRAW_LIMIT,
        geom.row_y <= DRAW_LIMIT,
        geom.track_x + geom.track_w <= DRAW_LIMIT,
    ensures
        final(out)@ == old(out)@ + slider_patches(geom, value as int, min as int, max as int, label),
{
    let ghost start = out@;
    let icon: [u8; 4] = [30, 30, 30, 255];
    draw_glyph(out, geom.row_x, geom.row_y, label, icon);
    draw_minus_icon(out, geom.row_x + SLIDER_LABEL_W, geom.row_y, icon);
    let after_track: u32 = geom.track_x + geom.track_w;
    let plus_x: u32 = if after_track < SLIDER_ICON_W {
        0
    } else {
        after_track - SLIDER_ICON_W
    };
    draw_plus_icon(out, plus_x, geom.row_y, icon);
    put(out, geom.track_x, geom.row_y, geom.track_w, geom.row_h, [200, 200, 200, 255]);
    let knob_w: u32 = if geom.track_w < SLIDER_KNOB_W {
        geom.track_w
    } else {
        SLIDER_KNOB_W
    };
    let knob_x: u32 = geom.track_x + knob_offset(geom, value, min, max);
    put(out, knob_x, geom.row_y, knob_w, geom.row_h, [60, 60, 60, 255]);
    assert(out@ =~= start + slider_patches(geom, value as int, min as int, max as int, label));
}

/// Number of decimal digits of `n`.
pub open spec fn digits_spec(n: int) -> int
    decreases n,
{
    if n < 10 {
        1
    } else {
        1 + digits_spec(n / 10)
    }
}

/// Number of decimal digits of `n`.
fn digits(n: u32) -> (count: u32)
    ensures
        count == digits_spec(n as int),
        1 <= count <= 10,
{
    let mut rest: u32 = n;
    let mut count: u32 = 1;
    proof {
        assert(pow10(0) == 1);
        assert(rest * pow10(0) == n) by (nonlinear_arith)
            requires
                pow10(0) == 1,
                rest == n,
        ;
    }
    while rest >= 10
        invariant
            1 <= count,
            count + digits_spec(rest as int) == 1 + digits_spec(n as int),
            rest * pow10(count as int - 1) <= n,
            count <= 10,
        decreases rest,
    {
        proof {
            lemma_pow10_step(rest as int, count as int - 1, n as int);
        }
        rest = rest / 10;
        count += 1;
    }
    count
}

/// Ten to the power `e`.
pub open spec fn pow10(e: int) -> int
    decreases e,
{
    if e <= 0 {
        1
    } else {
        10 * pow10(e - 1)
    }
}

/// A number of at most `u32::MAX` has at most ten digits: as long as ten or
/// more is left after `e` digits were taken off, `e` is less than nine.
pub proof fn lemma_pow10_step(rest: int, e: int, n: int)
    requires
        rest >= 10,
        e >= 0,
        rest * pow10(e) <= n,
        n <= 0xffff_ffff,
    ensures
        (rest / 10) * pow10(e + 1) <= n,
        e + 2 <= 10,
{
    assert(pow10(e + 1) == 10 * pow10(e));
    lemma_pow10_positive(e);
    assert((rest / 10) * (10 * pow10(e)) <= rest * pow10(e)) by (nonlinear_arith)
        requires
            rest >= 0,
            pow10(e) >= 1,
    {
        assert((rest / 10) * 10 <= rest);
    }
    assert(pow10(e) >= 1) by {
        lemma_pow10_positive(e);
    }
    if e >= 9 {
        lemma_pow10_grows(9, e);
        assert(pow10(9) == 1000000000) by {
            reveal_with_fuel(pow10, 11);
        }
        assert(rest * pow10(e) >= 10 * 1000000000) by (nonlinear_arith)
            requires
                rest >= 10,
                pow10(e) >= 1000000000,
        ;
    }
}

/// Powers of ten are positive.
pub proof fn lemma_pow10_positive(e: int)
    ensures
        pow10(e) >= 1,
    decreases e,
{
    if e > 0 {
        lemma_pow10_positive(e - 1);
    }
}

/// Powers of ten grow with the exponent.
pub proof fn lemma_pow10_grows(a: int, b: int)
    requires
        0 <= a <= b,
    ensures
        pow10(a) <= pow10(b),
    decreases b,
{
    if a < b {
        lemma_pow10_grows(a, b - 1);
        lemma_pow10_positive(b - 1);
    }
}

/// Colour of the panel's background.
pub open spec fn panel_color() -> [u8; 4] {
    [230, 230, 230, 255]
}

/// Colour of the button of a tool: highlighted for the tool in use.
pub open spec fn tool_color(active: bool) -> [u8; 4] {
    if active {
        [100, 150, 255, 255]
    } else {
        [180, 180, 180, 255]
    }
}

/// Name on the button of tool `i`.
pub open spec fn tool_name_spec(i: int) -> Seq<char> {
    if i == 0 {
        "BRUSH"@
    } else if i == 1 {
        "ERASER"@
    } else if i == 2 {
        "FILL"@
    } else if i == 3 {
        "PICKER"@
    } else {
        "MOVE"@
    }
}

/// Name on the button of tool `i`.
fn tool_name(i: u32) -> (name: &'static str)
    ensures
        name@ == tool_name_spec(i as int),
        name@.len() <= 6,
{
    proof {
        reveal_strlit("BRUSH");
        reveal_strlit("ERASER");
        reveal_strlit("FILL");
        reveal_strlit("PICKER");
        reveal_strlit("MOVE");
    }
    if i == 0 {
        "BRUSH"
    } else if i == 1 {
        "ERASER"
    } else if i == 2 {
        "FILL"
    } else if i == 3 {
        "PICKER"
    } else {
        "MOVE"
    }
}

/// The background of the panel and the palette buttons `0..n`.
pub open spec fn palette_patches(width: int, height: int, n: nat) -> Seq<Patch>
    decreases n,
{
    if n == 0 {
        seq![
            patch(
                0,
                0,
                if width < PANEL_WIDTH {
                    width
                } else {
                    PANEL_WIDTH as int
                },
                height,
                panel_color(),
            ),
        ]
    } else {
        palette_patches(width, height, (n - 1) as nat).push(
            patch(
                UI_MARGIN as int,
                UI_MARGIN + (n - 1) * (UI_BUTTON_H + UI_GAP),
                inner_width(),
                UI_BUTTON_H as int,
                palette_spec(n - 1),
            ),
        )
    }
}

/// The two buttons that resize the canvas.
pub open spec fn resize_patches() -> Seq<Patch> {
    seq![
        patch(6, 228, 35, 20, [200, 200, 200, 255]),
        patch(47, 228, 35, 20, [120, 120, 120, 255]),
    ]
}

/// Width of the bar that previews the brush: the diameter in whole
/// pixels, at most the inner width of the panel.
pub open spec fn preview_width(radius: int) -> int {
    clamp_spec((2 * radius) / 256, 0, inner_width())
}

/// The bar that previews the brush, centred, at least four pixels wide.
pub open spec fn preview_patches(radius: int, color: [u8; 4]) -> Seq<Patch> {
    let w = preview_width(radius);
    seq![
        patch(
            UI_MARGIN + (inner_width() - w) / 2,
            268,
            if w < 4 {
                4
            } else {
                w
            },
            (UI_BUTTON_H / 2) as int,
            color,
        ),
    ]
}

/// The buttons of tools `0..n` with their names.
pub open spec fn tool_patches(current: Tool, n: nat) -> Seq<Patch>
    decreases n,
{
    if n == 0 {
        Seq::empty()
    } else {
        let y = 284 + (n - 1) * (TOOL_BUTTON_H + TOOL_GAP);
        tool_patches(current, (n - 1) as nat).push(
            patch(
                UI_MARGIN as int,
                y,
                inner_width(),
                TOOL_BUTTON_H as int,
                tool_color(current == tool_spec(n - 1)),
            ),
        ) + text_patches(UI_MARGIN + 6, y + 7, tool_name_spec(n - 1), [0, 0, 0, 255])
    }
}

/// A pair of buttons in one row, with their names.
pub open spec fn pair_patches(y: int, left: Seq<char>, right: Seq<char>) -> Seq<Patch> {
    seq![
        patch(6, y, 35, 20, [170, 170, 200, 255]),
        patch(47, y, 35, 20, [170, 170, 200, 255]),
    ] + text_patches(10, y + 6, left, [0, 0, 0, 255]) + text_patches(
        51,
        y + 6,
        right,
        [0, 0, 0, 255],
    )
}

/// The size of a loaded image that is larger than the canvas, written as
/// width, `x`, height. Of these only the `x` has strokes.
pub open spec fn info_patches(width: int, height: int, image: Option<(u32, u32)>) -> Seq<Patch> {
    match image {
        Some((w, h)) => if w > width || h > height {
            letter_patches(8 + 6 * digits_spec(w as int), 482, 'x', [0, 0, 0, 255])
        } else {
            Seq::empty()
        },
        None => Seq::empty(),
    }
}

/// All patches of the panel, bottom to top.
pub open spec fn ui_patches(
    width: int,
    height: int,
    image: Option<(u32, u32)>,
    radius: int,
    color: [u8; 4],
    brightness: int,
    tool: Tool,
) -> Seq<Patch> {
    palette_patches(width, height, PALETTE_LEN as nat) + slider_patches(
        slider_geom_spec(UI_MARGIN as int, size_row_y(), inner_width()),
        radius,
        BRUSH_RADIUS_MIN as int,
        BRUSH_RADIUS_MAX as int,
        'S',
    ) + resize_patches() + slider_patches(
        slider_geom_spec(UI_MARGIN as int, brightness_row_y(), inner_width()),
        brightness,
        BRIGHT_MIN as int,
        BRIGHT_MAX as int,
        'B',
    ) + preview_patches(radius, color) + tool_patches(tool, 5) + pair_patches(
        430,
        "Import"@,
        "Export"@,
    ) + pair_patches(456, "Save"@, "Open"@) + info_patches(width, height, image)
}

/// Adds a pair of buttons in one row.
fn draw_pair(out: &mut Vec<Patch>, y: u32, left: &str, right: &str)
    requires
        y <= 1000,
        left@.len() <= 6,
        right@.len() <= 6,
    ensures
        final(out)@ == old(out)@ + pair_patches(y as int, left@, right@),
{
    let ghost start = out@;
    put(out, 6, y, 35, 20, [170, 170, 200, 255]);
    put(out, 47, y, 35, 20, [170, 170, 200, 255]);
    draw_button_text(out, 10, y + 6, left);
    draw_button_text(out, 51, y + 6, right);
    assert(out@ =~= start + pair_patches(y as int, left@, right@));
}

/// The patches of the panel for a canvas of the given size and image, a
/// brush, a brightness and the tool in use.
pub fn panel_patches(
    width: u32,
    height: u32,
    image: Option<(u32, u32)>,
    brush: &Brush,
    brightness: i32,
    tool: Tool,
) -> (out: Vec<Patch>)
    ensures
        out@ == ui_patches(
            width as int,
            height as int,
            image,
            brush.radius as int,
            brush.color,
            brightness as int,
            tool,
        ),
{
    let mut out: Vec<Patch> = Vec::new();
    let inner: u32 = PANEL_WIDTH - UI_MARGIN * 2;
    let panel_w: u32 = if width < PANEL_WIDTH {
        width
    } else {
        PANEL_WIDTH
    };
    put(&mut out, 0, 0, panel_w, height, [230, 230, 230, 255]);
    let mut i: u32 = 0;
    assert(out@ =~= palette_patches(width as int, height as int, 0));
    while i < PALETTE_LEN
        invariant
            i <= PALETTE_LEN,
            inner == inner_width(),
            out@ == palette_patches(width as int, height as int, i as nat),
        decreases PALETTE_LEN - i,
    {
        let y: u32 = UI_MARGIN + i * (UI_BUTTON_H + UI_GAP);
        put(&mut out, UI_MARGIN, y, inner, UI_BUTTON_H, palette(i));
        i += 1;
    }
    let ghost after_palette = out@;
    draw_slider(
        &mut out,
        size_slider_geom(),
        brush.radius,
        BRUSH_RADIUS_MIN,
        BRUSH_RADIUS_MAX,
        'S',
    );
    put(&mut out, 6, 228, 35, 20, [200, 200, 200, 255]);
    put(&mut out, 47, 228, 35, 20, [120, 120, 120, 255]);
    draw_slider(&mut out, brightness_slider_geom(), brightness, BRIGHT_MIN, BRIGHT_MAX, 'B');
    let across: i64 = (2 * brush.radius as i64) / 256;
    let preview_w: u32 = if brush.radius < 0 {
        0
    } else if across > inner as i64 {
        inner
    } else {
        across as u32
    };
    let shown_w: u32 = if preview_w < 4 {
        4
    } else {
        preview_w
    };
    put(
        &mut out,
        UI_MARGIN + (inner - preview_w) / 2,
        268,
        shown_w,
        UI_BUTTON_H / 2,
        brush.color,
    );
    let ghost before_tools = out@;
    assert(before_tools =~= palette_patches(width as int, height as int, PALETTE_LEN as nat)
        + slider_patches(
        slider_geom_spec(UI_MARGIN as int, size_row_y(), inner_width()),
        brush.radius as int,
        BRUSH_RADIUS_MIN as int,
        BRUSH_RADIUS_MAX as int,
        'S',
    ) + resize_patches() + slider_patches(
        slider_geom_spec(UI_MARGIN as int, brightness_row_y(), inner_width()),
        brightness as int,
        BRIGHT_MIN as int,
        BRIGHT_MAX as int,
        'B',
    ) + preview_patches(brush.radius as int, brush.color));
    let mut t: u32 = 0;
    assert(out@ =~= before_tools + tool_patches(tool, 0));
    while t < 5
        invariant
            t <= 5,
            inner == inner_width(),
            out@ == before_tools + tool_patches(tool, t as nat),
        decreases 5 - t,
    {
        let y: u32 = 284 + t * (TOOL_BUTTON_H + TOOL_GAP);
        let active: bool = tool == tool_at(t);
        let button: [u8; 4] = if active {
            [100, 150, 255, 255]
        } else {
            [180, 180, 180, 255]
        };
        assert(button@ =~= tool_color(active)@);
        put(&mut out, UI_MARGIN, y, inner, TOOL_BUTTON_H, button);
        draw_button_text(&mut out, UI_MARGIN + 6, y + 7, tool_name(t));
        t += 1;
        assert(out@ =~= before_tools + tool_patches(tool, t as nat));
    }
    proof {
        reveal_strlit("Import");
        reveal_strlit("Export");
        reveal_strlit("Save");
        reveal_strlit("Open");
    }
    draw_pair(&mut out, 430, "Import", "Export");
    draw_pair(&mut out, 456, "Save", "Open");
    let ghost before_info = out@;
    match image {
        Some((w, h)) => {
            if w > width || h > height {
                draw_char(&mut out, 8 + 6 * digits(w), 482, 'x', [0, 0, 0, 255]);
            }
        },
        None => {},
    }
    assert(out@ =~= before_info + info_patches(width as int, height as int, image));
    assert(out@ =~= ui_patches(
        width as int,
        height as int,
        image,
        brush.radius as int,
        brush.color,
        brightness as int,
        tool,
    ));
    out
}

/// Draws the panel onto the left edge of the canvas, for a brush, a
/// brightness and the state of the input.
pub fn draw_ui(canvas: &mut Canvas, brush: &Brush, brightness: i32, input: &InputState)
    requires
        old(canvas).wf(),
    ensures
        final(canvas).wf(),
        final(canvas)@ == old(canvas)@.fill_patches(
            ui_patches(
                old(canvas).width as int,
                old(canvas).height as int,
                old(canvas).loaded_image_size,
                brush.radius as int,
                brush.color,
                brightness as int,
                input.current_tool,
            ),
        ),
{
    let patches: Vec<Patch> = panel_patches(
        canvas.width,
        canvas.height,
        canvas.loaded_image_size,
        brush,
        brightness,
        input.current_tool,
    );
    canvas.fill_patches(&patches);
}

} // verus!
