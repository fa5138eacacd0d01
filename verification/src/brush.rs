//! A round brush: single stamps, and strokes without gaps.

use vstd::prelude::*;
use vstd::arithmetic::div_mod::lemma_fundamental_div_mod;
use crate::pixel::Rgba;
use crate::pixel::rgba;
use crate::pixel::floor_quotient;
use crate::view::CanvasView;
use crate::canvas::Canvas;

verus! {

/// A round brush. Its radius is in sub-pixel units, 256 to the pixel.
#[derive(Clone, Copy)]
pub struct Brush {
    pub radius: i32,
    pub color: [u8; 4],
}

/// Whether `n` steps, each of squared length `step2`, are at least as long
/// as a segment of squared length `d2`.
pub open spec fn covers(n: int, step2: int, d2: int) -> bool {
    step2 * (n * n) >= d2
}

/// Whether `n` is the least number of steps, and at least 1, that cover a
/// segment: its length in steps, rounded up.
pub open spec fn is_count(n: int, step2: int, d2: int) -> bool {
    &&& n >= 1
    &&& covers(n, step2, d2)
    &&& n == 1 || !covers(n - 1, step2, d2)
}

/// The least number of steps that cover a segment.
pub open spec fn count_of(step2: int, d2: int) -> int {
    choose|n: int| is_count(n, step2, d2)
}

/// Whether `n` pixels are at least as long as a segment whose squared
/// length, in sub-pixel units, is `d2`.
pub open spec fn spans(n: int, d2: int) -> bool {
    covers(n, 65536, d2)
}

/// Whether `n` is the number of steps of a stroke of squared length `d2`:
/// the length in pixels, rounded up, and at least 1.
pub open spec fn is_steps(n: int, d2: int) -> bool {
    is_count(n, 65536, d2)
}

/// Number of steps of a stroke along `(dx, dy)`:
/// `max(1, ceil(sqrt(dx² + dy²) / 256))`.
pub open spec fn stroke_steps(dx: int, dy: int) -> int {
    steps_of(dx * dx + dy * dy)
}

/// The number of steps of a stroke of squared length `d2`.
pub open spec fn steps_of(d2: int) -> int {
    count_of(65536, d2)
}

/// Centre of stamp `i` of a stroke of `n` steps: the point at `i / n` of
/// the way, each coordinate rounded down.
pub open spec fn stroke_centre(from: (int, int), to: (int, int), n: int, i: int) -> (int, int) {
    (from.0 + ((to.0 - from.0) * i) / n, from.1 + ((to.1 - from.1) * i) / n)
}

impl CanvasView {
    /// The first `k` stamps of a stroke of `n` steps.
    pub open spec fn stamps(
        self,
        from: (int, int),
        to: (int, int),
        n: int,
        r: int,
        c: Rgba,
        k: nat,
    ) -> CanvasView
        decreases k,
    {
        if k == 0 {
            self
        } else {
            let p = stroke_centre(from, to, n, k - 1);
            self.stamps(from, to, n, r, c, (k - 1) as nat).stamp_circle(p.0, p.1, r, c)
        }
    }

    /// A stroke from `from` to `to`: stamps at `n + 1` points, both ends
    /// among them, for `n` the number of steps of the segment.
    pub open spec fn stroke(self, from: (int, int), to: (int, int), r: int, c: Rgba) -> CanvasView {
        let n = stroke_steps(to.0 - from.0, to.1 - from.1);
        self.stamps(from, to, n, r, c, (n + 1) as nat)
    }
}

/// More steps cover at least as far.
pub proof fn lemma_covers_more(n: int, m: int, step2: int, d2: int)
    by (nonlinear_arith)
    requires
        0 <= n <= m,
        step2 >= 0,
        covers(n, step2, d2),
    ensures
        covers(m, step2, d2),
{
}

/// A segment has one number of steps.
pub proof fn lemma_count_unique(n: int, m: int, step2: int, d2: int)
    requires
        step2 >= 0,
        is_count(n, step2, d2),
        is_count(m, step2, d2),
    ensures
        n == m,
{
    if n < m {
        lemma_covers_more(n, m - 1, step2, d2);
    } else if m < n {
        lemma_covers_more(m, n - 1, step2, d2);
    }
}

/// A point of a stroke lies between its ends, on each axis.
pub proof fn lemma_between(d: int, i: int, n: int)
    requires
        0 <= i <= n,
        0 < n,
    ensures
        d >= 0 ==> 0 <= (d * i) / n <= d,
        d < 0 ==> d <= (d * i) / n <= 0,
        i == 0 ==> (d * i) / n == 0,
        i == n ==> (d * i) / n == d,
{
    let q = (d * i) / n;
    let r = (d * i) % n;
    lemma_fundamental_div_mod(d * i, n);
    assert(n * q == q * n) by (nonlinear_arith);
    if d >= 0 {
        assert(0 <= q <= d) by (nonlinear_arith)
            requires
                d * i == q * n + r,
                0 <= r < n,
                0 <= i <= n,
                d >= 0,
        ;
    } else {
        assert(d <= q <= 0) by (nonlinear_arith)
            requires
                d * i == q * n + r,
                0 <= r < n,
                0 <= i <= n,
                d < 0,
        ;
    }
    if i == 0 {
        assert(d * i == 0);
    }
    if i == n {
        assert(q == d) by (nonlinear_arith)
            requires
                d * n == q * n + r,
                0 <= r < n,
        ;
    }
}

/// Whether `n` steps cover a segment.
fn covers_exec(n: u64, step2: u64, d2: u128) -> (yes: bool)
    requires
        n <= 0x4_0000_0000,
        d2 <= 0x10_0000_0000_0000_0000,
    ensures
        yes == covers(n as int, step2 as int, d2 as int),
{
    assert(0 <= n * n <= 0x4_0000_0000 * 0x4_0000_0000) by (nonlinear_arith)
        requires
            0 <= n <= 0x4_0000_0000,
    ;
    let nn: u128 = n as u128 * n as u128;
    if nn == 0 {
        assert(step2 * nn == 0) by (nonlinear_arith)
            requires
                nn == 0,
        ;
        return d2 == 0;
    }
    // The product may not fit: compare with the quotient, rounded up.
    let q: u128 = d2 / nn;
    let rem: u128 = d2 % nn;
    proof {
        lemma_fundamental_div_mod(d2 as int, nn as int);
        let s = step2 as int;
        let m = nn as int;
        let qq = q as int;
        assert(m * qq == qq * m) by (nonlinear_arith);
        if s > qq {
            assert(s * m >= qq * m + m) by (nonlinear_arith)
                requires
                    s >= qq + 1,
                    m > 0,
            ;
        } else if s < qq {
            assert(s * m <= qq * m - m) by (nonlinear_arith)
                requires
                    s + 1 <= qq,
                    m > 0,
            ;
        }
        assert(step2 * (n * n) == s * m);
    }
    if rem == 0 {
        step2 as u128 >= q
    } else {
        step2 as u128 > q
    }
}

/// The least number of steps, each of squared length `step2`, that cover a
/// segment of squared length `d2`.
pub fn count_steps(step2: u64, d2: u128) -> (n: u64)
    requires
        step2 >= 1,
        d2 <= 0x10_0000_0000_0000_0000,
    ensures
        is_count(n as int, step2 as int, d2 as int),
        n == count_of(step2 as int, d2 as int),
        1 <= n <= 0x4_0000_0000,
{
    let mut lo: u64 = 0;
    let mut hi: u64 = 0x4_0000_0000;
    assert(covers(hi as int, step2 as int, d2 as int)) by (nonlinear_arith)
        requires
            hi == 0x4_0000_0000,
            step2 >= 1,
            d2 <= 0x10_0000_0000_0000_0000,
    ;
    while hi - lo > 1
        invariant
            lo < hi <= 0x4_0000_0000,
            d2 <= 0x10_0000_0000_0000_0000,
            covers(hi as int, step2 as int, d2 as int),
            lo == 0 || !covers(lo as int, step2 as int, d2 as int),
        decreases hi - lo,
    {
        let mid: u64 = lo + (hi - lo) / 2;
        if covers_exec(mid, step2, d2) {
            hi = mid;
        } else {
            lo = mid;
        }
    }
    proof {
        assert(is_count(hi as int, step2 as int, d2 as int));
        let chosen = count_of(step2 as int, d2 as int);
        assert(is_count(chosen, step2 as int, d2 as int));
        lemma_count_unique(hi as int, chosen, step2 as int, d2 as int);
    }
    hi
}

/// Number of steps of a stroke along `(dx, dy)`.
pub fn steps_along(dx: i64, dy: i64) -> (n: u32)
    requires
        -0x1_0000_0000 <= dx <= 0x1_0000_0000,
        -0x1_0000_0000 <= dy <= 0x1_0000_0000,
    ensures
        n == stroke_steps(dx as int, dy as int),
        is_steps(n as int, dx * dx + dy * dy),
        1 <= n <= 0x200_0000,
{
    assert(0 <= dx * dx <= 0x1_0000_0000 * 0x1_0000_0000) by (nonlinear_arith)
        requires
            -0x1_0000_0000 <= dx <= 0x1_0000_0000,
    ;
    assert(0 <= dy * dy <= 0x1_0000_0000 * 0x1_0000_0000) by (nonlinear_arith)
        requires
            -0x1_0000_0000 <= dy <= 0x1_0000_0000,
    ;
    let d2: u128 = (dx as i128 * dx as i128 + dy as i128 * dy as i128) as u128;
    let n: u64 = count_steps(65536, d2);
    proof {
        if n > 0x200_0000 {
            assert(covers(0x200_0000, 65536, d2 as int)) by (nonlinear_arith)
                requires
                    d2 <= 2 * (0x1_0000_0000 * 0x1_0000_0000),
            ;
            lemma_covers_more(0x200_0000, n - 1, 65536, d2 as int);
        }
    }
    n as u32
}

impl Brush {
    /// Stamps the brush once at `pos`, given in sub-pixel units.
    pub fn stamp(&self, canvas: &mut Canvas, pos: (i32, i32))
        requires
            old(canvas).wf(),
        ensures
            final(canvas).wf(),
            final(canvas)@ == old(canvas)@.stamp_circle(
                pos.0 as int,
                pos.1 as int,
                self.radius as int,
                rgba(self.color),
            ),
    {
        canvas.stamp_circle(pos.0, pos.1, self.radius, self.color);
    }

    /// Draws a stroke from `from` to `to`, both in sub-pixel units: stamps
    /// at evenly spaced points of the segment, the ends included, no two
    /// consecutive ones much more than a pixel apart.
    pub fn stroke(&self, canvas: &mut Canvas, from: (i32, i32), to: (i32, i32))
        requires
            old(canvas).wf(),
        ensures
            final(canvas).wf(),
            final(canvas)@ == old(canvas)@.stroke(
                (from.0 as int, from.1 as int),
                (to.0 as int, to.1 as int),
                self.radius as int,
                rgba(self.color),
            ),
    {
        let ghost before = canvas@;
        let ghost a = (from.0 as int, from.1 as int);
        let ghost b = (to.0 as int, to.1 as int);
        let dx: i64 = to.0 as i64 - from.0 as i64;
        let dy: i64 = to.1 as i64 - from.1 as i64;
        let n: u32 = steps_along(dx, dy);
        let mut i: u32 = 0;
        while i <= n
            invariant
                i <= n + 1,
                1 <= n <= 0x200_0000,
                dx == to.0 - from.0,
                dy == to.1 - from.1,
                a == (from.0 as int, from.1 as int),
                b == (to.0 as int, to.1 as int),
                canvas.wf(),
                canvas@ == before.stamps(
                    a,
                    b,
                    n as int,
                    self.radius as int,
                    rgba(self.color),
                    i as nat,
                ),
            decreases n + 1 - i,
        {
            proof {
                lemma_between(dx as int, i as int, n as int);
                lemma_between(dy as int, i as int, n as int);
                assert(-0x400_0000_0000_0000 <= dx * i <= 0x400_0000_0000_0000)
                    by (nonlinear_arith)
                    requires
                        -0x1_0000_0000 <= dx <= 0x1_0000_0000,
                        0 <= i <= 0x200_0001,
                ;
                assert(-0x400_0000_0000_0000 <= dy * i <= 0x400_0000_0000_0000)
                    by (nonlinear_arith)
                    requires
                        -0x1_0000_0000 <= dy <= 0x1_0000_0000,
                        0 <= i <= 0x200_0001,
                ;
            }
            let x: i64 = from.0 as i64 + floor_quotient(dx * i as i64, n as i64);
            let y: i64 = from.1 as i64 + floor_quotient(dy * i as i64, n as i64);
            canvas.stamp_circle(x as i32, y as i32, self.radius, self.color);
            i += 1;
        }
    }
}

/// Magnitude of an integer.
pub open spec fn magnitude(v: int) -> int {
    if v < 0 {
        -v
    } else {
        v
    }
}

/// Squared distance between two points.
pub open spec fn distance_squared(p: (int, int), q: (int, int)) -> int {
    (q.0 - p.0) * (q.0 - p.0) + (q.1 - p.1) * (q.1 - p.1)
}

/// The largest squared distance, in sub-pixel units, between two
/// consecutive stamps of a stroke: that of 258 units, a pixel and two
/// 256ths of one.
pub open spec fn step_limit() -> int {
    258int * 258
}

/// Two consecutive points of a stroke differ, on one axis, by the `n`th part
/// of the whole difference `d`, up to less than one unit.
pub proof fn lemma_step_size(d: int, i: int, n: int)
    requires
        0 < n,
    ensures
        -n < n * ((d * (i + 1)) / n - (d * i) / n) - d < n,
{
    let q1 = (d * (i + 1)) / n;
    let r1 = (d * (i + 1)) % n;
    let q0 = (d * i) / n;
    let r0 = (d * i) % n;
    lemma_fundamental_div_mod(d * (i + 1), n);
    lemma_fundamental_div_mod(d * i, n);
    assert(d * (i + 1) == d * i + d) by (nonlinear_arith);
    assert(n * (q1 - q0) == n * q1 - n * q0) by (nonlinear_arith);
}

/// The sum of the magnitudes of two numbers, squared, is at most twice the
/// sum of their squares.
pub proof fn lemma_taxicab(dx: int, dy: int)
    ensures
        (magnitude(dx) + magnitude(dy)) * (magnitude(dx) + magnitude(dy)) <= 2 * (dx * dx + dy
            * dy),
{
    let a = magnitude(dx);
    let b = magnitude(dy);
    assert(a * a == dx * dx) by (nonlinear_arith)
        requires
            a == dx || a == -dx,
    ;
    assert(b * b == dy * dy) by (nonlinear_arith)
        requires
            b == dy || b == -dy,
    ;
    assert((a - b) * (a - b) >= 0) by (nonlinear_arith);
    assert((a + b) * (a + b) <= 2 * (a * a + b * b)) by (nonlinear_arith)
        requires
            (a - b) * (a - b) >= 0,
    ;
}

/// The square of a sum, from bounds on the magnitudes of its terms.
pub proof fn lemma_square_of_sum(d: int, e: int, m: int, n: int)
    by (nonlinear_arith)
    requires
        -m <= d <= m,
        -n <= e <= n,
    ensures
        (d + e) * (d + e) <= d * d + 2 * (m * n) + n * n,
{
    assert(d * e <= m * n);
    assert(e * e <= n * n);
}

/// Consecutive stamps of a stroke are never much more than a pixel apart,
/// however long the stroke: the distance between the centres of stamp `i`
/// and stamp `i + 1` is at most 258 sub-pixel units.
pub proof fn lemma_stroke_continuity(from: (int, int), to: (int, int), i: int)
    requires
        0 <= i < stroke_steps(to.0 - from.0, to.1 - from.1),
    ensures
        distance_squared(
            stroke_centre(from, to, stroke_steps(to.0 - from.0, to.1 - from.1), i),
            stroke_centre(from, to, stroke_steps(to.0 - from.0, to.1 - from.1), i + 1),
        ) <= step_limit(),
{
    let dx = to.0 - from.0;
    let dy = to.1 - from.1;
    let d2 = dx * dx + dy * dy;
    let n = stroke_steps(dx, dy);
    assert(d2 >= 0) by (nonlinear_arith)
        requires
            d2 == dx * dx + dy * dy,
    ;
    let found = lemma_steps_exist(d2);
    assert(is_steps(n, d2));
    let a = (dx * (i + 1)) / n - (dx * i) / n;
    let b = (dy * (i + 1)) / n - (dy * i) / n;
    lemma_step_size(dx, i, n);
    lemma_step_size(dy, i, n);
    let e = n * a - dx;
    let f = n * b - dy;
    let mx = magnitude(dx);
    let my = magnitude(dy);
    let s = mx + my;
    lemma_taxicab(dx, dy);
    assert(s <= 363 * n) by (nonlinear_arith)
        requires
            s * s <= 2 * d2,
            d2 <= 65536 * (n * n),
            s >= 0,
            n >= 1,
    ;
    lemma_square_of_sum(dx, e, mx, n);
    lemma_square_of_sum(dy, f, my, n);
    assert(mx * n + my * n == s * n) by (nonlinear_arith)
        requires
            s == mx + my,
    ;
    assert(s * n <= 363 * (n * n)) by (nonlinear_arith)
        requires
            s <= 363 * n,
            n >= 1,
    ;
    assert((n * a) * (n * a) + (n * b) * (n * b) <= 66264 * (n * n));
    assert(a * a + b * b <= 66264) by (nonlinear_arith)
        requires
            (n * a) * (n * a) + (n * b) * (n * b) <= 66264 * (n * n),
            n >= 1,
    ;
    let p = stroke_centre(from, to, n, i);
    let q = stroke_centre(from, to, n, i + 1);
    assert(q.0 - p.0 == a);
    assert(q.1 - p.1 == b);
}

/// Every segment has a number of steps.
pub proof fn lemma_steps_exist(d2: int) -> (n: int)
    requires
        d2 >= 0,
    ensures
        is_steps(n, d2),
        n == steps_of(d2),
{
    let n = steps_search(d2, 1);
    lemma_steps_search(d2, 1);
    lemma_count_unique(n, steps_of(d2), 65536, d2);
    n
}

/// The least number of pixels, from `n` on, that span a segment.
pub open spec fn steps_search(d2: int, n: int) -> int
    decreases d2 - n,
{
    if n < 1 || n >= d2 || spans(n, d2) {
        n
    } else {
        steps_search(d2, n + 1)
    }
}

/// The search for the number of steps finds it.
pub proof fn lemma_steps_search(d2: int, n: int)
    requires
        n >= 1,
        n == 1 || !spans(n - 1, d2),
    ensures
        is_steps(steps_search(d2, n), d2),
    decreases d2 - n,
{
    if n >= d2 {
        assert(spans(n, d2)) by (nonlinear_arith)
            requires
                n >= d2,
                n >= 1,
        ;
    } else if !spans(n, d2) {
        lemma_steps_search(d2, n + 1);
    }
}

} // verus!
