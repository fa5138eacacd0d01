//! Flood fill: the region of one colour around a seed, and the search that
//! fills it.

use vstd::prelude::*;
use crate::pixel::Rgba;
use crate::pixel::rgba;
use crate::pixel::same_color;
use crate::grid::pixel_at;
use crate::grid::put_pixel;
use crate::grid::grid_map;
use crate::grid::grid_partial;
use crate::grid::in_grid;
use crate::grid::load_pixel;
use crate::grid::store_pixel;
use crate::grid::lemma_offset_bounds;
use crate::grid::lemma_index_join;
use crate::grid::lemma_grid_partial_step;
use crate::grid::lemma_grid_partial_done;
use crate::grid::lemma_grid_partial_recast;
use crate::view::CanvasView;
use crate::view::lemma_wf_grid;
use crate::view::lemma_wf_layer_grid;
use crate::canvas::Canvas;

verus! {

impl CanvasView {
    /// Whether `(x, y)` can be reached from the seed `(sx, sy)` in at most
    /// `k` steps to a 4-neighbour, over pixels of the seed's colour only.
    pub open spec fn reach(self, sx: int, sy: int, x: int, y: int, k: nat) -> bool
        decreases k,
    {
        &&& self.in_canvas(x, y)
        &&& self.pixel(x, y) == self.pixel(sx, sy)
        &&& if k == 0 {
            x == sx && y == sy
        } else {
            ||| self.reach(sx, sy, x, y, (k - 1) as nat)
            ||| self.reach(sx, sy, x - 1, y, (k - 1) as nat)
            ||| self.reach(sx, sy, x + 1, y, (k - 1) as nat)
            ||| self.reach(sx, sy, x, y - 1, (k - 1) as nat)
            ||| self.reach(sx, sy, x, y + 1, (k - 1) as nat)
        }
    }

    /// Whether `(x, y)` belongs to the 4-connected region of the seed's
    /// colour around the seed.
    pub open spec fn connected(self, sx: int, sy: int, x: int, y: int) -> bool {
        exists|k: nat| self.reach(sx, sy, x, y, k)
    }

    /// Whether some pixel of the seed's region lies over the image pixel
    /// `(ix, iy)`.
    pub open spec fn region_covers(self, sx: int, sy: int, ix: int, iy: int) -> bool {
        exists|x: int, y: int|
            #[trigger] self.connected(sx, sy, x, y) && self.image_x(x) == ix && self.image_y(y)
                == iy
    }

    /// Fills the region of the seed with a colour, in the composite buffer
    /// and in the drawing layer under it. Nothing changes for a seed outside
    /// the canvas, or one that has the fill colour already.
    pub open spec fn flood_fill(self, sx: int, sy: int, fill: Rgba) -> CanvasView {
        if !self.in_canvas(sx, sy) || self.pixel(sx, sy) == fill {
            self
        } else {
            CanvasView {
                pixels: grid_map(
                    self.pixels,
                    self.stride,
                    self.width,
                    |x: int, y: int|
                        if self.connected(sx, sy, x, y) {
                            fill
                        } else {
                            self.pixel(x, y)
                        },
                ),
                layer: if self.image_size is Some {
                    grid_map(
                        self.layer,
                        4 * self.image_width(),
                        self.image_width(),
                        |ix: int, iy: int|
                            if self.region_covers(sx, sy, ix, iy) {
                                fill
                            } else {
                                self.layer_pixel(ix, iy)
                            },
                    )
                } else {
                    self.layer
                },
                dirty: true,
                ..self
            }
        }
    }
}

/// Index of pixel `(x, y)` in a bitmap with one entry per pixel.
pub open spec fn cell(width: int, x: int, y: int) -> int {
    y * width + x
}

/// Whether the search has taken `(x, y)` off the stack before.
pub open spec fn seen(visited: Seq<bool>, width: int, x: int, y: int) -> bool {
    visited[cell(width, x, y)]
}

/// Whether `(x, y)` waits on the stack.
pub open spec fn on_stack(stack: Seq<(u32, u32)>, x: int, y: int) -> bool {
    exists|i: int| 0 <= i < stack.len() && (#[trigger] stack[i]).0 == x && stack[i].1 == y
}

/// Whether the search has filled `(x, y)`.
pub open spec fn flooded(v: CanvasView, sx: int, sy: int, visited: Seq<bool>, x: int, y: int) -> bool {
    &&& v.in_canvas(x, y)
    &&& seen(visited, v.width, x, y)
    &&& v.pixel(x, y) == v.pixel(sx, sy)
}

/// Whether the search has filled the drawing layer at `(ix, iy)`.
pub open spec fn layer_flooded(
    v: CanvasView,
    sx: int,
    sy: int,
    visited: Seq<bool>,
    ix: int,
    iy: int,
) -> bool {
    exists|x: int, y: int|
        #[trigger] flooded(v, sx, sy, visited, x, y) && v.image_x(x) == ix && v.image_y(y) == iy
}

/// Nothing is left to do for `(x, y)`: it lies outside the canvas, has been
/// seen, or waits on the stack.
pub open spec fn settled(
    v: CanvasView,
    visited: Seq<bool>,
    stack: Seq<(u32, u32)>,
    x: int,
    y: int,
) -> bool {
    !v.in_canvas(x, y) || seen(visited, v.width, x, y) || on_stack(stack, x, y)
}

/// Whether `(x, y)` and `(qx, qy)` are 4-neighbours.
pub open spec fn adjacent(x: int, y: int, qx: int, qy: int) -> bool {
    ||| (x == qx - 1 && y == qy)
    ||| (x == qx + 1 && y == qy)
    ||| (x == qx && y == qy - 1)
    ||| (x == qx && y == qy + 1)
}

/// What holds of the search between two steps.
pub open spec fn fill_inv(
    cur: CanvasView,
    v: CanvasView,
    sx: int,
    sy: int,
    fill: Rgba,
    visited: Seq<bool>,
    stack: Seq<(u32, u32)>,
) -> bool {
    &&& v.wf()
    &&& cur == (CanvasView { pixels: cur.pixels, layer: cur.layer, ..v })
    &&& v.in_canvas(sx, sy)
    &&& visited.len() == v.width * v.height
    &&& forall|i: int|
        0 <= i < stack.len() ==> v.in_canvas((#[trigger] stack[i]).0 as int, stack[i].1 as int) && (
        v.pixel(stack[i].0 as int, stack[i].1 as int) == v.pixel(sx, sy) ==> v.connected(
            sx,
            sy,
            stack[i].0 as int,
            stack[i].1 as int,
        ))
    &&& grid_partial(
        cur.pixels,
        v.pixels,
        v.stride,
        v.width,
        v.height,
        |x: int, y: int| fill,
        |x: int, y: int| flooded(v, sx, sy, visited, x, y),
    )
    &&& if v.image_size is Some {
        grid_partial(
            cur.layer,
            v.layer,
            4 * v.image_width(),
            v.image_width(),
            v.image_height(),
            |ix: int, iy: int| fill,
            |ix: int, iy: int| layer_flooded(v, sx, sy, visited, ix, iy),
        )
    } else {
        cur.layer == v.layer
    }
    &&& forall|x: int, y: int| #[trigger]
        flooded(v, sx, sy, visited, x, y) ==> {
            &&& v.connected(sx, sy, x, y)
            &&& settled(v, visited, stack, x - 1, y)
            &&& settled(v, visited, stack, x + 1, y)
            &&& settled(v, visited, stack, x, y - 1)
            &&& settled(v, visited, stack, x, y + 1)
        }
    &&& settled(v, visited, stack, sx, sy)
}

/// Number of entries of a bitmap that are not set.
pub open spec fn unseen(visited: Seq<bool>) -> nat
    decreases visited.len(),
{
    if visited.len() == 0 {
        0
    } else {
        unseen(visited.drop_last()) + if visited.last() {
            0nat
        } else {
            1nat
        }
    }
}

/// Setting an entry that was not set leaves one unset entry fewer.
pub proof fn lemma_unseen_mark(visited: Seq<bool>, i: int)
    requires
        0 <= i < visited.len(),
        !visited[i],
    ensures
        unseen(visited.update(i, true)) + 1 == unseen(visited),
    decreases visited.len(),
{
    let marked = visited.update(i, true);
    if i == visited.len() - 1 {
        assert(marked.drop_last() =~= visited.drop_last());
    } else {
        lemma_unseen_mark(visited.drop_last(), i);
        assert(marked.drop_last() =~= visited.drop_last().update(i, true));
    }
}

/// Each pixel of the canvas has a cell of its own in the bitmap.
pub proof fn lemma_cell(width: int, height: int, x: int, y: int)
    requires
        in_grid(width, height, x, y),
    ensures
        0 <= cell(width, x, y) < width * height,
        cell(width, x, y) / width == y,
        cell(width, x, y) % width == x,
{
    lemma_index_join(width, y, x);
    assert(0 <= y * width && y * width + width <= width * height) by (nonlinear_arith)
        requires
            0 <= y < height,
            0 < width,
    ;
}

/// Marking a pixel as seen changes no other pixel's mark.
pub proof fn lemma_mark(visited: Seq<bool>, width: int, height: int, x: int, y: int)
    requires
        in_grid(width, height, x, y),
        visited.len() == width * height,
    ensures
        seen(visited.update(cell(width, x, y), true), width, x, y),
        forall|x2: int, y2: int|
            in_grid(width, height, x2, y2) && !(x2 == x && y2 == y) ==> #[trigger] seen(
                visited.update(cell(width, x, y), true),
                width,
                x2,
                y2,
            ) == seen(visited, width, x2, y2),
{
    lemma_cell(width, height, x, y);
    assert forall|x2: int, y2: int|
        in_grid(width, height, x2, y2) && !(x2 == x && y2 == y) implies #[trigger] seen(
        visited.update(cell(width, x, y), true),
        width,
        x2,
        y2,
    ) == seen(visited, width, x2, y2) by {
        lemma_cell(width, height, x2, y2);
    }
}

/// A neighbour of the seed's colour, next to a pixel of the region, belongs
/// to the region.
pub proof fn lemma_connected_step(v: CanvasView, sx: int, sy: int, qx: int, qy: int, x: int, y: int)
    requires
        v.connected(sx, sy, qx, qy),
        adjacent(x, y, qx, qy),
        v.in_canvas(x, y),
        v.pixel(x, y) == v.pixel(sx, sy),
    ensures
        v.connected(sx, sy, x, y),
{
    let k = choose|k: nat| v.reach(sx, sy, qx, qy, k);
    assert(v.reach(sx, sy, x, y, k + 1));
}

/// The search starts with the seed on the stack and nothing seen.
pub proof fn lemma_fill_start(
    v: CanvasView,
    sx: int,
    sy: int,
    fill: Rgba,
    visited: Seq<bool>,
    stack: Seq<(u32, u32)>,
)
    requires
        v.wf(),
        v.in_canvas(sx, sy),
        visited.len() == v.width * v.height,
        forall|i: int| 0 <= i < visited.len() ==> !visited[i],
        stack.len() == 1,
        stack[0].0 == sx,
        stack[0].1 == sy,
    ensures
        fill_inv(v, v, sx, sy, fill, visited, stack),
{
    assert forall|x: int, y: int| !#[trigger] flooded(v, sx, sy, visited, x, y) by {
        if v.in_canvas(x, y) {
            lemma_cell(v.width, v.height, x, y);
        }
    }
    assert(v.reach(sx, sy, sx, sy, 0));
    assert(on_stack(stack, sx, sy));
    assert forall|ix: int, iy: int| !layer_flooded(v, sx, sy, visited, ix, iy) by {}
}

/// A pixel that was seen before is dropped from the stack.
pub proof fn lemma_fill_drop(
    cur: CanvasView,
    v: CanvasView,
    sx: int,
    sy: int,
    fill: Rgba,
    visited: Seq<bool>,
    stack: Seq<(u32, u32)>,
)
    requires
        fill_inv(cur, v, sx, sy, fill, visited, stack),
        stack.len() > 0,
        seen(visited, v.width, stack.last().0 as int, stack.last().1 as int),
    ensures
        fill_inv(cur, v, sx, sy, fill, visited, stack.drop_last()),
{
    let rest = stack.drop_last();
    let qx = stack.last().0 as int;
    let qy = stack.last().1 as int;
    assert forall|x: int, y: int| settled(v, visited, stack, x, y) implies settled(
        v,
        visited,
        rest,
        x,
        y,
    ) by {
        lemma_settled_drop(v, visited, stack, x, y);
    }
    assert forall|i: int| 0 <= i < rest.len() implies rest[i] == stack[i] by {}
}

/// What was settled stays settled when the top of the stack, once seen,
/// is dropped.
pub proof fn lemma_settled_drop(
    v: CanvasView,
    visited: Seq<bool>,
    stack: Seq<(u32, u32)>,
    x: int,
    y: int,
)
    requires
        stack.len() > 0,
        seen(visited, v.width, stack.last().0 as int, stack.last().1 as int),
        settled(v, visited, stack, x, y),
    ensures
        settled(v, visited, stack.drop_last(), x, y),
{
    if v.in_canvas(x, y) && !seen(visited, v.width, x, y) {
        let i = choose|i: int| 0 <= i < stack.len() && (#[trigger] stack[i]).0 == x && stack[i].1 == y;
        assert(i < stack.len() - 1);
        assert(stack.drop_last()[i] == stack[i]);
    }
}

/// What marking a pixel as seen does to the set of filled pixels: it adds
/// the pixel if it has the seed's colour.
pub proof fn lemma_flooded_mark(
    v: CanvasView,
    sx: int,
    sy: int,
    visited: Seq<bool>,
    qx: int,
    qy: int,
)
    requires
        v.in_canvas(qx, qy),
        visited.len() == v.width * v.height,
    ensures
        forall|x: int, y: int| #[trigger]
            flooded(v, sx, sy, visited.update(cell(v.width, qx, qy), true), x, y) == (flooded(
                v,
                sx,
                sy,
                visited,
                x,
                y,
            ) || (x == qx && y == qy && v.pixel(qx, qy) == v.pixel(sx, sy))),
{
    let marked = visited.update(cell(v.width, qx, qy), true);
    lemma_mark(visited, v.width, v.height, qx, qy);
    lemma_cell(v.width, v.height, qx, qy);
    assert forall|x: int, y: int| #[trigger]
        flooded(v, sx, sy, marked, x, y) == (flooded(v, sx, sy, visited, x, y) || (x == qx && y
            == qy && v.pixel(qx, qy) == v.pixel(sx, sy))) by {
        if v.in_canvas(x, y) && !(x == qx && y == qy) {
            assert(seen(marked, v.width, x, y) == seen(visited, v.width, x, y));
        }
    }
}

/// What marking a pixel as seen does to the set of filled drawing-layer
/// pixels.
pub proof fn lemma_layer_flooded_mark(
    v: CanvasView,
    sx: int,
    sy: int,
    visited: Seq<bool>,
    qx: int,
    qy: int,
)
    requires
        v.in_canvas(qx, qy),
        visited.len() == v.width * v.height,
    ensures
        forall|ix: int, iy: int| #[trigger]
            layer_flooded(v, sx, sy, visited.update(cell(v.width, qx, qy), true), ix, iy) == (
            layer_flooded(v, sx, sy, visited, ix, iy) || (v.pixel(qx, qy) == v.pixel(sx, sy)
                && v.image_x(qx) == ix && v.image_y(qy) == iy)),
{
    let marked = visited.update(cell(v.width, qx, qy), true);
    lemma_flooded_mark(v, sx, sy, visited, qx, qy);
    assert forall|ix: int, iy: int| #[trigger]
        layer_flooded(v, sx, sy, marked, ix, iy) == (layer_flooded(v, sx, sy, visited, ix, iy) || (
        v.pixel(qx, qy) == v.pixel(sx, sy) && v.image_x(qx) == ix && v.image_y(qy) == iy)) by {
        if layer_flooded(v, sx, sy, marked, ix, iy) {
            let (x, y) = choose|x: int, y: int|
                #[trigger] flooded(v, sx, sy, marked, x, y) && v.image_x(x) == ix && v.image_y(y)
                    == iy;
            if !(x == qx && y == qy) {
                assert(flooded(v, sx, sy, visited, x, y));
            }
        }
        if layer_flooded(v, sx, sy, visited, ix, iy) {
            let (x, y) = choose|x: int, y: int|
                #[trigger] flooded(v, sx, sy, visited, x, y) && v.image_x(x) == ix && v.image_y(y)
                    == iy;
            assert(flooded(v, sx, sy, marked, x, y));
        }
        if v.pixel(qx, qy) == v.pixel(sx, sy) && v.image_x(qx) == ix && v.image_y(qy) == iy {
            assert(flooded(v, sx, sy, marked, qx, qy));
        }
    }
}

/// What was settled stays settled when the top of the stack is marked as
/// seen and replaced by other pixels.
pub proof fn lemma_settled_visit(
    v: CanvasView,
    visited: Seq<bool>,
    stack: Seq<(u32, u32)>,
    stack2: Seq<(u32, u32)>,
    x: int,
    y: int,
)
    requires
        stack.len() > 0,
        v.in_canvas(stack.last().0 as int, stack.last().1 as int),
        visited.len() == v.width * v.height,
        stack2.len() >= stack.len() - 1,
        forall|i: int| 0 <= i < stack.len() - 1 ==> stack2[i] == stack[i],
        settled(v, visited, stack, x, y),
    ensures
        settled(
            v,
            visited.update(cell(v.width, stack.last().0 as int, stack.last().1 as int), true),
            stack2,
            x,
            y,
        ),
{
    let qx = stack.last().0 as int;
    let qy = stack.last().1 as int;
    let marked = visited.update(cell(v.width, qx, qy), true);
    lemma_mark(visited, v.width, v.height, qx, qy);
    if v.in_canvas(x, y) && !(x == qx && y == qy) {
        assert(seen(marked, v.width, x, y) == seen(visited, v.width, x, y));
        if !seen(visited, v.width, x, y) {
            let i = choose|i: int|
                0 <= i < stack.len() && (#[trigger] stack[i]).0 == x && stack[i].1 == y;
            assert(i < stack.len() - 1);
            assert(stack2[i] == stack[i]);
        }
    }
}

/// The invariant keeps the canvas well-formed.
pub proof fn lemma_fill_inv_wf(
    cur: CanvasView,
    v: CanvasView,
    sx: int,
    sy: int,
    fill: Rgba,
    visited: Seq<bool>,
    stack: Seq<(u32, u32)>,
)
    requires
        fill_inv(cur, v, sx, sy, fill, visited, stack),
    ensures
        cur.wf(),
{
}

/// One step of the search: the top of the stack, not seen before, is marked
/// as seen. If it has the seed's colour it is filled, in the composite
/// buffer and in the drawing layer, and its neighbours are put on the stack.
pub proof fn lemma_fill_visit(
    cur: CanvasView,
    cur2: CanvasView,
    v: CanvasView,
    sx: int,
    sy: int,
    fill: Rgba,
    visited: Seq<bool>,
    stack: Seq<(u32, u32)>,
    stack2: Seq<(u32, u32)>,
)
    requires
        fill_inv(cur, v, sx, sy, fill, visited, stack),
        stack.len() > 0,
        !seen(visited, v.width, stack.last().0 as int, stack.last().1 as int),
        stack2.len() >= stack.len() - 1,
        forall|i: int| 0 <= i < stack.len() - 1 ==> stack2[i] == stack[i],
        cur2 == (CanvasView { pixels: cur2.pixels, layer: cur2.layer, ..v }),
        v.pixel(stack.last().0 as int, stack.last().1 as int) != v.pixel(sx, sy) ==> cur2 == cur
            && stack2.len() == stack.len() - 1,
        v.pixel(stack.last().0 as int, stack.last().1 as int) == v.pixel(sx, sy) ==> {
            &&& cur2.pixels == put_pixel(
                cur.pixels,
                v.stride,
                stack.last().0 as int,
                stack.last().1 as int,
                fill,
            )
            &&& cur2.layer == (if v.mapped(stack.last().0 as int, stack.last().1 as int) {
                cur.put_layer_under(stack.last().0 as int, stack.last().1 as int, fill)
            } else {
                cur.layer
            })
            &&& forall|i: int|
                stack.len() - 1 <= i < stack2.len() ==> v.in_canvas(
                    (#[trigger] stack2[i]).0 as int,
                    stack2[i].1 as int,
                ) && adjacent(
                    stack2[i].0 as int,
                    stack2[i].1 as int,
                    stack.last().0 as int,
                    stack.last().1 as int,
                )
            &&& forall|x: int, y: int|
                v.in_canvas(x, y) && #[trigger] adjacent(
                    x,
                    y,
                    stack.last().0 as int,
                    stack.last().1 as int,
                ) ==> on_stack(stack2, x, y)
        },
    ensures
        fill_inv(
            cur2,
            v,
            sx,
            sy,
            fill,
            visited.update(cell(v.width, stack.last().0 as int, stack.last().1 as int), true),
            stack2,
        ),
{
    let qx = stack.last().0 as int;
    let qy = stack.last().1 as int;
    let marked = visited.update(cell(v.width, qx, qy), true);
    let hit = v.pixel(qx, qy) == v.pixel(sx, sy);
    assert(v.in_canvas(qx, qy));
    lemma_wf_grid(v);
    lemma_cell(v.width, v.height, qx, qy);
    lemma_flooded_mark(v, sx, sy, visited, qx, qy);
    lemma_layer_flooded_mark(v, sx, sy, visited, qx, qy);
    let f = |x: int, y: int| fill;
    // The composite buffer.
    if hit {
        lemma_grid_partial_step(
            cur.pixels,
            v.pixels,
            v.stride,
            v.width,
            v.height,
            f,
            |x: int, y: int| flooded(v, sx, sy, visited, x, y),
            qx,
            qy,
            |x: int, y: int| flooded(v, sx, sy, marked, x, y),
        );
    } else {
        lemma_grid_partial_recast(
            cur.pixels,
            v.pixels,
            v.stride,
            v.width,
            v.height,
            f,
            |x: int, y: int| flooded(v, sx, sy, visited, x, y),
            f,
            |x: int, y: int| flooded(v, sx, sy, marked, x, y),
        );
    }
    // The drawing layer.
    if v.image_size is Some {
        lemma_wf_layer_grid(v);
        let w = v.image_width();
        let h = v.image_height();
        if hit && v.mapped(qx, qy) {
            lemma_grid_partial_step(
                cur.layer,
                v.layer,
                4 * w,
                w,
                h,
                f,
                |ix: int, iy: int| layer_flooded(v, sx, sy, visited, ix, iy),
                v.image_x(qx),
                v.image_y(qy),
                |ix: int, iy: int| layer_flooded(v, sx, sy, marked, ix, iy),
            );
        } else {
            lemma_grid_partial_recast(
                cur.layer,
                v.layer,
                4 * w,
                w,
                h,
                f,
                |ix: int, iy: int| layer_flooded(v, sx, sy, visited, ix, iy),
                f,
                |ix: int, iy: int| layer_flooded(v, sx, sy, marked, ix, iy),
            );
        }
    }
    // The stack.
    assert forall|i: int| 0 <= i < stack2.len() implies v.in_canvas(
        (#[trigger] stack2[i]).0 as int,
        stack2[i].1 as int,
    ) && (v.pixel(stack2[i].0 as int, stack2[i].1 as int) == v.pixel(sx, sy) ==> v.connected(
        sx,
        sy,
        stack2[i].0 as int,
        stack2[i].1 as int,
    )) by {
        if i < stack.len() - 1 {
            assert(stack2[i] == stack[i]);
        } else {
            assert(hit);
            assert(v.connected(sx, sy, qx, qy));
            if v.pixel(stack2[i].0 as int, stack2[i].1 as int) == v.pixel(sx, sy) {
                lemma_connected_step(
                    v,
                    sx,
                    sy,
                    qx,
                    qy,
                    stack2[i].0 as int,
                    stack2[i].1 as int,
                );
            }
        }
    }
    // What is filled is connected, and its neighbours are settled.
    assert forall|x: int, y: int| #[trigger] flooded(v, sx, sy, marked, x, y) implies {
        &&& v.connected(sx, sy, x, y)
        &&& settled(v, marked, stack2, x - 1, y)
        &&& settled(v, marked, stack2, x + 1, y)
        &&& settled(v, marked, stack2, x, y - 1)
        &&& settled(v, marked, stack2, x, y + 1)
    } by {
        if flooded(v, sx, sy, visited, x, y) {
            lemma_settled_visit(v, visited, stack, stack2, x - 1, y);
            lemma_settled_visit(v, visited, stack, stack2, x + 1, y);
            lemma_settled_visit(v, visited, stack, stack2, x, y - 1);
            lemma_settled_visit(v, visited, stack, stack2, x, y + 1);
        } else {
            assert(x == qx && y == qy && hit);
            assert(adjacent(x - 1, y, qx, qy));
            assert(adjacent(x + 1, y, qx, qy));
            assert(adjacent(x, y - 1, qx, qy));
            assert(adjacent(x, y + 1, qx, qy));
        }
    }
    lemma_settled_visit(v, visited, stack, stack2, sx, sy);
}

/// With nothing left on the stack, every pixel of the seed's region has
/// been filled.
pub proof fn lemma_fill_complete(
    cur: CanvasView,
    v: CanvasView,
    sx: int,
    sy: int,
    fill: Rgba,
    visited: Seq<bool>,
    stack: Seq<(u32, u32)>,
    x: int,
    y: int,
    k: nat,
)
    requires
        fill_inv(cur, v, sx, sy, fill, visited, stack),
        stack.len() == 0,
        v.reach(sx, sy, x, y, k),
    ensures
        flooded(v, sx, sy, visited, x, y),
    decreases k,
{
    if k == 0 {
        assert(settled(v, visited, stack, sx, sy));
    } else {
        let j = (k - 1) as nat;
        if v.reach(sx, sy, x, y, j) {
            lemma_fill_complete(cur, v, sx, sy, fill, visited, stack, x, y, j);
        } else if v.reach(sx, sy, x - 1, y, j) {
            lemma_fill_complete(cur, v, sx, sy, fill, visited, stack, x - 1, y, j);
            assert(settled(v, visited, stack, (x - 1) + 1, y));
        } else if v.reach(sx, sy, x + 1, y, j) {
            lemma_fill_complete(cur, v, sx, sy, fill, visited, stack, x + 1, y, j);
            assert(settled(v, visited, stack, (x + 1) - 1, y));
        } else if v.reach(sx, sy, x, y - 1, j) {
            lemma_fill_complete(cur, v, sx, sy, fill, visited, stack, x, y - 1, j);
            assert(settled(v, visited, stack, x, (y - 1) + 1));
        } else {
            lemma_fill_complete(cur, v, sx, sy, fill, visited, stack, x, y + 1, j);
            assert(settled(v, visited, stack, x, (y + 1) - 1));
        }
    }
}

/// With nothing left on the stack, the canvas is the filled canvas, but for
/// the dirty flag.
pub proof fn lemma_fill_done(
    cur: CanvasView,
    v: CanvasView,
    sx: int,
    sy: int,
    fill: Rgba,
    visited: Seq<bool>,
    stack: Seq<(u32, u32)>,
)
    requires
        fill_inv(cur, v, sx, sy, fill, visited, stack),
        stack.len() == 0,
        v.pixel(sx, sy) != fill,
    ensures
        (CanvasView { dirty: true, ..cur }) == v.flood_fill(sx, sy, fill),
{
    lemma_wf_grid(v);
    assert forall|x: int, y: int| #[trigger]
        v.connected(sx, sy, x, y) == flooded(v, sx, sy, visited, x, y) by {
        if v.connected(sx, sy, x, y) {
            let k = choose|k: nat| v.reach(sx, sy, x, y, k);
            lemma_fill_complete(cur, v, sx, sy, fill, visited, stack, x, y, k);
        }
    }
    let f = |x: int, y: int| fill;
    let f2 = |x: int, y: int|
        if v.connected(sx, sy, x, y) {
            fill
        } else {
            v.pixel(x, y)
        };
    let done2 = |x: int, y: int| v.connected(sx, sy, x, y);
    lemma_grid_partial_recast(
        cur.pixels,
        v.pixels,
        v.stride,
        v.width,
        v.height,
        f,
        |x: int, y: int| flooded(v, sx, sy, visited, x, y),
        f2,
        done2,
    );
    lemma_grid_partial_done(cur.pixels, v.pixels, v.stride, v.width, v.height, f2, done2);
    if v.image_size is Some {
        lemma_wf_layer_grid(v);
        let w = v.image_width();
        let h = v.image_height();
        assert forall|ix: int, iy: int| #[trigger]
            v.region_covers(sx, sy, ix, iy) == layer_flooded(v, sx, sy, visited, ix, iy) by {
            if v.region_covers(sx, sy, ix, iy) {
                let (x, y) = choose|x: int, y: int|
                    #[trigger] v.connected(sx, sy, x, y) && v.image_x(x) == ix && v.image_y(y)
                        == iy;
                assert(flooded(v, sx, sy, visited, x, y));
            }
            if layer_flooded(v, sx, sy, visited, ix, iy) {
                let (x, y) = choose|x: int, y: int|
                    #[trigger] flooded(v, sx, sy, visited, x, y) && v.image_x(x) == ix
                        && v.image_y(y) == iy;
                assert(v.connected(sx, sy, x, y));
            }
        }
        let g2 = |ix: int, iy: int|
            if v.region_covers(sx, sy, ix, iy) {
                fill
            } else {
                v.layer_pixel(ix, iy)
            };
        let cover2 = |ix: int, iy: int| v.region_covers(sx, sy, ix, iy);
        lemma_grid_partial_recast(
            cur.layer,
            v.layer,
            4 * w,
            w,
            h,
            f,
            |ix: int, iy: int| layer_flooded(v, sx, sy, visited, ix, iy),
            g2,
            cover2,
        );
        lemma_grid_partial_done(cur.layer, v.layer, 4 * w, w, h, g2, cover2);
    }
}

/// Puts the 4-neighbours of `(x, y)` that lie in the canvas on the stack:
/// left, right, up, down.
fn push_neighbours(stack: &mut Vec<(u32, u32)>, x: u32, y: u32, width: u32, height: u32)
    requires
        x < width,
        y < height,
    ensures
        final(stack)@.len() >= old(stack)@.len(),
        forall|i: int| 0 <= i < old(stack)@.len() ==> final(stack)@[i] == old(stack)@[i],
        forall|i: int|
            old(stack)@.len() <= i < final(stack)@.len() ==> (#[trigger] final(stack)@[i]).0 < width
                && final(stack)@[i].1 < height && adjacent(
                final(stack)@[i].0 as int,
                final(stack)@[i].1 as int,
                x as int,
                y as int,
            ),
        forall|nx: int, ny: int|
            0 <= nx < width && 0 <= ny < height && #[trigger] adjacent(nx, ny, x as int, y as int)
                ==> on_stack(final(stack)@, nx, ny),
{
    let ghost start = stack@;
    if x > 0 {
        stack.push((x - 1, y));
    }
    let ghost left = stack@;
    if x + 1 < width {
        stack.push((x + 1, y));
    }
    let ghost right = stack@;
    if y > 0 {
        stack.push((x, y - 1));
    }
    let ghost up = stack@;
    if y + 1 < height {
        stack.push((x, y + 1));
    }
    proof {
        let end = stack@;
        assert forall|nx: int, ny: int|
            0 <= nx < width && 0 <= ny < height && #[trigger] adjacent(
                nx,
                ny,
                x as int,
                y as int,
            ) implies on_stack(end, nx, ny) by {
            if nx == x - 1 && ny == y {
                let i = start.len() as int;
                assert(end[i].0 == nx && end[i].1 == ny);
            } else if nx == x + 1 && ny == y {
                let i = left.len() as int;
                assert(end[i].0 == nx && end[i].1 == ny);
            } else if nx == x && ny == y - 1 {
                let i = right.len() as int;
                assert(end[i].0 == nx && end[i].1 == ny);
            } else {
                let i = up.len() as int;
                assert(end[i].0 == nx && end[i].1 == ny);
            }
        }
    }
}

impl Canvas {
    /// Fills the 4-connected region of one colour around the seed with
    /// `fill_color`, in the composite buffer and, where an image pixel lies
    /// under a filled pixel, in the drawing layer. The region's colour is
    /// that of the composite pixel at the seed. Nothing is done for a seed
    /// outside the canvas, or one that has the fill colour already.
    pub fn flood_fill(&mut self, start_x: u32, start_y: u32, fill_color: [u8; 4])
        requires
            old(self).wf(),
        ensures
            final(self).wf(),
            final(self)@ == old(self)@.flood_fill(
                start_x as int,
                start_y as int,
                rgba(fill_color),
            ),
    {
        if start_x >= self.width || start_y >= self.height {
            return;
        }
        let ghost before = self@;
        let ghost fill = rgba(fill_color);
        let width: u32 = self.width;
        let height: u32 = self.height;
        let stride: usize = self.stride;
        proof {
            lemma_wf_grid(self@);
            lemma_offset_bounds(
                stride as int,
                width as int,
                height as int,
                start_x as int,
                start_y as int,
            );
        }
        let target: [u8; 4] = load_pixel(&self.pixels, stride, start_x as usize, start_y as usize);
        if same_color(&target, &fill_color) {
            return;
        }
        let total: usize = self.pixels.len();
        assert(0 <= width * height && 4 * (width * height) <= stride * height) by (nonlinear_arith)
            requires
                0 <= 4 * width <= stride,
                0 <= height,
        ;
        let cells: usize = width as usize * height as usize;
        let mut stack: Vec<(u32, u32)> = Vec::new();
        stack.push((start_x, start_y));
        let mut visited: Vec<bool> = vec![false; cells];
        proof {
            lemma_fill_start(before, start_x as int, start_y as int, fill, visited@, stack@);
        }
        while stack.len() > 0
            invariant
                before.wf(),
                width == before.width,
                height == before.height,
                stride == before.stride,
                fill == rgba(fill_color),
                rgba(target) == before.pixel(start_x as int, start_y as int),
                rgba(target) != fill,
                cells == width * height,
                fill_inv(self@, before, start_x as int, start_y as int, fill, visited@, stack@),
            decreases unseen(visited@), stack.len(),
        {
            let ghost cur = self@;
            let ghost waiting = stack@;
            let ghost marks = visited@;
            let top: (u32, u32) = stack.pop().unwrap();
            let x: u32 = top.0;
            let y: u32 = top.1;
            assert(top == waiting.last());
            assert(stack@ == waiting.drop_last());
            assert(before.in_canvas(x as int, y as int));
            proof {
                lemma_cell(width as int, height as int, x as int, y as int);
                lemma_offset_bounds(stride as int, width as int, height as int, x as int, y as int);
                lemma_fill_inv_wf(
                    cur,
                    before,
                    start_x as int,
                    start_y as int,
                    fill,
                    marks,
                    waiting,
                );
                assert(0 <= y * width) by (nonlinear_arith)
                    requires
                        0 <= y,
                        0 <= width,
                ;
            }
            let at: usize = y as usize * width as usize + x as usize;
            if visited[at] {
                proof {
                    lemma_fill_drop(
                        cur,
                        before,
                        start_x as int,
                        start_y as int,
                        fill,
                        marks,
                        waiting,
                    );
                }
            } else {
                visited.set(at, true);
                proof {
                    lemma_unseen_mark(marks, at as int);
                }
                let shown: [u8; 4] = load_pixel(&self.pixels, stride, x as usize, y as usize);
                assert(rgba(shown) == before.pixel(x as int, y as int)) by {
                    assert(!flooded(before, start_x as int, start_y as int, marks, x as int, y as int));
                    assert(pixel_at(cur.pixels, stride as int, x as int, y as int) == pixel_at(
                        before.pixels,
                        stride as int,
                        x as int,
                        y as int,
                    ));
                }
                if same_color(&shown, &target) {
                    store_pixel(&mut self.pixels, stride, x as usize, y as usize, fill_color);
                    match self.canvas_to_image(x, y) {
                        Some((ix, iy)) => {
                            let row: usize = self.layer_stride();
                            proof {
                                lemma_offset_bounds(
                                    row as int,
                                    self@.image_width(),
                                    self@.image_height(),
                                    ix as int,
                                    iy as int,
                                );
                            }
                            store_pixel(
                                &mut self.drawing_layer,
                                row,
                                ix as usize,
                                iy as usize,
                                fill_color,
                            );
                        },
                        None => {},
                    }
                    push_neighbours(&mut stack, x, y, width, height);
                }
                proof {
                    lemma_fill_visit(
                        cur,
                        self@,
                        before,
                        start_x as int,
                        start_y as int,
                        fill,
                        marks,
                        waiting,
                        stack@,
                    );
                }
            }
        }
        proof {
            lemma_fill_done(
                self@,
                before,
                start_x as int,
                start_y as int,
                fill,
                visited@,
                stack@,
            );
            lemma_fill_inv_wf(
                self@,
                before,
                start_x as int,
                start_y as int,
                fill,
                visited@,
                stack@,
            );
        }
        self.dirty = true;
    }
}

/// On a canvas of one colour every pixel is reached from the seed, in as
/// many steps as the two are apart.
pub proof fn lemma_uniform_reach(v: CanvasView, sx: int, sy: int, x: int, y: int, k: nat)
    requires
        v.in_canvas(sx, sy),
        v.in_canvas(x, y),
        forall|px: int, py: int| v.in_canvas(px, py) ==> #[trigger] v.pixel(px, py) == v.pixel(sx, sy),
        k == (if x < sx {
            sx - x
        } else {
            x - sx
        }) + (if y < sy {
            sy - y
        } else {
            y - sy
        }),
    ensures
        v.reach(sx, sy, x, y, k),
    decreases k,
{
    if k > 0 {
        let j = (k - 1) as nat;
        if x < sx {
            lemma_uniform_reach(v, sx, sy, x + 1, y, j);
        } else if x > sx {
            lemma_uniform_reach(v, sx, sy, x - 1, y, j);
        } else if y < sy {
            lemma_uniform_reach(v, sx, sy, x, y + 1, j);
        } else {
            lemma_uniform_reach(v, sx, sy, x, y - 1, j);
        }
    }
}

/// Flood fill of a canvas of one colour with another colour fills every
/// pixel of it, from whatever seed; and a fill with the colour that the
/// seed has already changes nothing.
pub proof fn lemma_flood_fill_uniform(v: CanvasView, sx: int, sy: int, fill: Rgba, x: int, y: int)
    requires
        v.wf(),
        v.in_canvas(sx, sy),
        v.in_canvas(x, y),
        forall|px: int, py: int| v.in_canvas(px, py) ==> #[trigger] v.pixel(px, py) == v.pixel(sx, sy),
    ensures
        v.pixel(sx, sy) != fill ==> v.flood_fill(sx, sy, fill).pixel(x, y) == fill,
        v.flood_fill(sx, sy, v.pixel(sx, sy)) == v,
{
    if v.pixel(sx, sy) != fill {
        let k = ((if x < sx {
            sx - x
        } else {
            x - sx
        }) + (if y < sy {
            sy - y
        } else {
            y - sy
        })) as nat;
        lemma_uniform_reach(v, sx, sy, x, y, k);
        assert(v.connected(sx, sy, x, y));
        lemma_wf_grid(v);
        crate::grid::lemma_grid_map(
            v.pixels,
            v.stride,
            v.width,
            v.height,
            |x: int, y: int|
                if v.connected(sx, sy, x, y) {
                    fill
                } else {
                    v.pixel(x, y)
                },
        );
    }
}

} // verus!
