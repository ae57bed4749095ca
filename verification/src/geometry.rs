//! Pure geometry: hit tests, resize-handle transforms, drag-rectangle
//! normalization, and polygon bounding boxes.  All inputs and outputs are
//! fixed-point coordinates (thousandths of a unit).

use vstd::prelude::*;

verus! {

use crate::{coord_ok, COORD_LIMIT};

/// Hit radius around a point shape, in fixed-point units (10 units).
pub const HIT_RADIUS: i64 = 10_000;

/// Smallest dimension an edge-handle resize may produce (1 unit).
pub const MIN_EDGE_DIM: i64 = 1_000;

/// An axis-aligned rectangle: top-left corner plus extents.
#[derive(Clone, Copy, PartialEq, Eq, Structural, Debug)]
pub struct Rect {
    pub x: i64,
    pub y: i64,
    pub width: i64,
    pub height: i64,
}

impl Rect {
    /// All four fields are bounded coordinates.
    pub open spec fn wf(self) -> bool {
        coord_ok(self.x) && coord_ok(self.y) && coord_ok(self.width) && coord_ok(self.height)
    }
}

/// The eight resize handles: four corners and four edges.
#[derive(Clone, Copy, PartialEq, Eq, Structural, Debug)]
pub enum ResizeHandle {
    CornerTopLeft,
    CornerTopRight,
    CornerBottomLeft,
    CornerBottomRight,
    EdgeTop,
    EdgeRight,
    EdgeBottom,
    EdgeLeft,
}

/// Whether a click at `(px, py)` lands within distance `HIT_RADIUS` of the
/// point `(x, y)` (strictly, as the original gesture handling demands).
pub open spec fn spec_point_hit(px: int, py: int, x: int, y: int) -> bool {
    (px - x) * (px - x) + (py - y) * (py - y) < HIT_RADIUS * HIT_RADIUS
}

/// Whether `(px, py)` lies inside the rectangle `[x, x+w] x [y, y+h]`,
/// boundary included.
pub open spec fn spec_rect_hit(px: int, py: int, r: Rect) -> bool {
    r.x <= px <= r.x + r.width && r.y <= py <= r.y + r.height
}

/// Euclidean hit test against a point shape at `(x, y)`: true iff the click
/// is strictly closer than the hit radius.
pub fn point_hit(px: i64, py: i64, x: i64, y: i64) -> (hit: bool)
    requires
        coord_ok(px),
        coord_ok(py),
        coord_ok(x),
        coord_ok(y),
    ensures
        hit == spec_point_hit(px as int, py as int, x as int, y as int),
{
    let dx: i128 = px as i128 - x as i128;
    let dy: i128 = py as i128 - y as i128;
    proof {
        let b: int = 2 * COORD_LIMIT;
        assert(dx * dx <= b * b && dx * dx >= 0) by (nonlinear_arith)
            requires
                -b <= dx <= b,
        ;
        assert(dy * dy <= b * b && dy * dy >= 0) by (nonlinear_arith)
            requires
                -b <= dy <= b,
        ;
    }
    let rr: i128 = 100_000_000;
    proof {
        assert(rr == HIT_RADIUS * HIT_RADIUS);
    }
    dx * dx + dy * dy < rr
}

/// Containment hit test against a rectangle, boundary included.
pub fn rect_hit(px: i64, py: i64, r: &Rect) -> (hit: bool)
    requires
        coord_ok(px),
        coord_ok(py),
        r.wf(),
    ensures
        hit == spec_rect_hit(px as int, py as int, *r),
{
    r.x <= px && px <= r.x + r.width && r.y <= py && py <= r.y + r.height
}

/// The rectangle a drag from `(ax, ay)` to `(cx, cy)` describes: component-wise
/// minimum corner and absolute extents.
pub open spec fn spec_drag_rect(ax: int, ay: int, cx: int, cy: int) -> Rect {
    Rect {
        x: (if ax <= cx { ax } else { cx }) as i64,
        y: (if ay <= cy { ay } else { cy }) as i64,
        width: (if cx >= ax { cx - ax } else { ax - cx }) as i64,
        height: (if cy >= ay { cy - ay } else { ay - cy }) as i64,
    }
}

/// Normalize a drag gesture from anchor `(ax, ay)` to cursor `(cx, cy)` into
/// a rectangle with non-negative extents.
pub fn drag_rect(ax: i64, ay: i64, cx: i64, cy: i64) -> (r: Rect)
    requires
        coord_ok(ax),
        coord_ok(ay),
        coord_ok(cx),
        coord_ok(cy),
    ensures
        r == spec_drag_rect(ax as int, ay as int, cx as int, cy as int),
        r.width >= 0,
        r.height >= 0,
{
    let x = if ax <= cx { ax } else { cx };
    let y = if ay <= cy { ay } else { cy };
    let width = if cx >= ax { cx - ax } else { ax - cx };
    let height = if cy >= ay { cy - ay } else { ay - cy };
    Rect { x, y, width, height }
}

pub open spec fn spec_min(a: int, b: int) -> int {
    if a <= b { a } else { b }
}

pub open spec fn spec_abs(a: int) -> int {
    if a >= 0 { a } else { -a }
}

pub open spec fn spec_max(a: int, b: int) -> int {
    if a >= b { a } else { b }
}

/// What each handle does to the grabbed bounds, as a pure function of the
/// handle, the bounds at grab time, and the current cursor position.  Corner
/// handles pin the opposite corner; edge handles pin the opposite edge and
/// floor the moving dimension at `MIN_EDGE_DIM`.
pub open spec fn spec_resize(handle: ResizeHandle, orig: Rect, mx: int, my: int) -> Rect {
    match handle {
        ResizeHandle::CornerTopLeft => {
            let fx = orig.x + orig.width;
            let fy = orig.y + orig.height;
            Rect {
                x: spec_min(mx, fx) as i64,
                y: spec_min(my, fy) as i64,
                width: spec_abs(fx - spec_min(mx, fx)) as i64,
                height: spec_abs(fy - spec_min(my, fy)) as i64,
            }
        },
        ResizeHandle::CornerTopRight => {
            let fx = orig.x as int;
            let fy = orig.y + orig.height;
            Rect {
                x: spec_min(mx, fx) as i64,
                y: spec_min(my, fy) as i64,
                width: spec_abs(mx - fx) as i64,
                height: spec_abs(fy - spec_min(my, fy)) as i64,
            }
        },
        ResizeHandle::CornerBottomLeft => {
            let fx = orig.x + orig.width;
            let fy = orig.y as int;
            Rect {
                x: spec_min(mx, fx) as i64,
                y: spec_min(my, fy) as i64,
                width: spec_abs(fx - spec_min(mx, fx)) as i64,
                height: spec_abs(my - fy) as i64,
            }
        },
        ResizeHandle::CornerBottomRight => {
            let fx = orig.x as int;
            let fy = orig.y as int;
            Rect {
                x: spec_min(mx, fx) as i64,
                y: spec_min(my, fy) as i64,
                width: spec_abs(mx - fx) as i64,
                height: spec_abs(my - fy) as i64,
            }
        },
        ResizeHandle::EdgeTop => {
            let fy = orig.y + orig.height;
            let height = spec_max(fy - my, MIN_EDGE_DIM as int);
            Rect { x: orig.x, y: (fy - height) as i64, width: orig.width, height: height as i64 }
        },
        ResizeHandle::EdgeRight => {
            Rect { x: orig.x, y: orig.y, width: spec_max(mx - orig.x, MIN_EDGE_DIM as int) as i64, height: orig.height }
        },
        ResizeHandle::EdgeBottom => {
            Rect { x: orig.x, y: orig.y, width: orig.width, height: spec_max(my - orig.y, MIN_EDGE_DIM as int) as i64 }
        },
        ResizeHandle::EdgeLeft => {
            let fx = orig.x + orig.width;
            let width = spec_max(fx - mx, MIN_EDGE_DIM as int);
            Rect { x: (fx - width) as i64, y: orig.y, width: width as i64, height: orig.height }
        },
    }
}

/// Recompute bounds for a drag of `handle`, grabbed at bounds `orig`, with
/// the cursor now at `(mx, my)`.  Depends only on its arguments — never on
/// the previous frame — so repeating a call with the same inputs returns the
/// same rectangle.
pub fn resize_transform(handle: ResizeHandle, orig: &Rect, mx: i64, my: i64) -> (r: Rect)
    requires
        orig.wf(),
        coord_ok(mx),
        coord_ok(my),
    ensures
        r == spec_resize(handle, *orig, mx as int, my as int),
{
    match handle {
        ResizeHandle::CornerTopLeft => {
            let fx = orig.x + orig.width;
            let fy = orig.y + orig.height;
            let x = if mx <= fx { mx } else { fx };
            let y = if my <= fy { my } else { fy };
            Rect { x, y, width: abs_i64(fx - x), height: abs_i64(fy - y) }
        },
        ResizeHandle::CornerTopRight => {
            let fx = orig.x;
            let fy = orig.y + orig.height;
            let x = if mx <= fx { mx } else { fx };
            let y = if my <= fy { my } else { fy };
            Rect { x, y, width: abs_i64(mx - fx), height: abs_i64(fy - y) }
        },
        ResizeHandle::CornerBottomLeft => {
            let fx = orig.x + orig.width;
            let fy = orig.y;
            let x = if mx <= fx { mx } else { fx };
            let y = if my <= fy { my } else { fy };
            Rect { x, y, width: abs_i64(fx - x), height: abs_i64(my - fy) }
        },
        ResizeHandle::CornerBottomRight => {
            let fx = orig.x;
            let fy = orig.y;
            let x = if mx <= fx { mx } else { fx };
            let y = if my <= fy { my } else { fy };
            Rect { x, y, width: abs_i64(mx - fx), height: abs_i64(my - fy) }
        },
        ResizeHandle::EdgeTop => {
            let fy = orig.y + orig.height;
            let d = fy - my;
            let height = if d >= MIN_EDGE_DIM {
                d
            } else {
                MIN_EDGE_DIM
            };
            Rect { x: orig.x, y: fy - height, width: orig.width, height }
        },
        ResizeHandle::EdgeRight => {
            let d = mx - orig.x;
            let width = if d >= MIN_EDGE_DIM { d } else { MIN_EDGE_DIM };
            Rect { x: orig.x, y: orig.y, width, height: orig.height }
        },
        ResizeHandle::EdgeBottom => {
            let d = my - orig.y;
            let height = if d >= MIN_EDGE_DIM { d } else { MIN_EDGE_DIM };
            Rect { x: orig.x, y: orig.y, width: orig.width, height }
        },
        ResizeHandle::EdgeLeft => {
            let fx = orig.x + orig.width;
            let d = fx - mx;
            let width = if d >= MIN_EDGE_DIM {
                d
            } else {
                MIN_EDGE_DIM
            };
            Rect { x: fx - width, y: orig.y, width, height: orig.height }
        },
    }
}

/// Two rectangles that both came out of the resize transform for identical
/// handle, grabbed bounds and cursor are identical: the transform is a
/// function of those inputs alone, so repeating it during a drag cannot
/// drift.  Both calls of `resize_transform` ensure exactly this relation to
/// their arguments.
pub proof fn lemma_resize_deterministic(
    handle: ResizeHandle,
    orig: Rect,
    mx: int,
    my: int,
    r1: Rect,
    r2: Rect,
)
    requires
        r1 == spec_resize(handle, orig, mx, my),
        r2 == spec_resize(handle, orig, mx, my),
    ensures
        r1 == r2,
{
}

/// Extremes of a non-empty vertex list, one component at a time.
pub open spec fn spec_min_x(vs: Seq<crate::model::Vertex>) -> int
    decreases vs.len(),
{
    if vs.len() <= 1 {
        vs[0].x as int
    } else {
        spec_min(spec_min_x(vs.drop_last()), vs.last().x as int)
    }
}

pub open spec fn spec_min_y(vs: Seq<crate::model::Vertex>) -> int
    decreases vs.len(),
{
    if vs.len() <= 1 {
        vs[0].y as int
    } else {
        spec_min(spec_min_y(vs.drop_last()), vs.last().y as int)
    }
}

pub open spec fn spec_max_x(vs: Seq<crate::model::Vertex>) -> int
    decreases vs.len(),
{
    if vs.len() <= 1 {
        vs[0].x as int
    } else {
        spec_max(spec_max_x(vs.drop_last()), vs.last().x as int)
    }
}

pub open spec fn spec_max_y(vs: Seq<crate::model::Vertex>) -> int
    decreases vs.len(),
{
    if vs.len() <= 1 {
        vs[0].y as int
    } else {
        spec_max(spec_max_y(vs.drop_last()), vs.last().y as int)
    }
}

/// The axis-aligned bounding box of a polygon outline: minimum corner plus
/// the extent up to the maximum corner.
pub open spec fn spec_polygon_bbox(vs: Seq<crate::model::Vertex>) -> Rect {
    Rect {
        x: spec_min_x(vs) as i64,
        y: spec_min_y(vs) as i64,
        width: (spec_max_x(vs) - spec_min_x(vs)) as i64,
        height: (spec_max_y(vs) - spec_min_y(vs)) as i64,
    }
}

/// Derive the bounding box of a non-empty vertex list.
pub fn polygon_bbox(vs: &Vec<crate::model::Vertex>) -> (r: Rect)
    requires
        vs@.len() > 0,
        forall|i: int|
            0 <= i < vs@.len() ==> coord_ok(#[trigger] vs@[i].x) && coord_ok(vs@[i].y),
    ensures
        r == spec_polygon_bbox(vs@),
        coord_ok(r.x),
        coord_ok(r.y),
        0 <= r.width <= 2 * COORD_LIMIT,
        0 <= r.height <= 2 * COORD_LIMIT,
{
    let mut min_x = vs[0].x;
    let mut min_y = vs[0].y;
    let mut max_x = vs[0].x;
    let mut max_y = vs[0].y;
    let mut i: usize = 1;
    while i < vs.len()
        invariant
            1 <= i <= vs@.len(),
            forall|k: int|
                0 <= k < vs@.len() ==> coord_ok(#[trigger] vs@[k].x) && coord_ok(vs@[k].y),
            min_x == spec_min_x(vs@.take(i as int)),
            min_y == spec_min_y(vs@.take(i as int)),
            max_x == spec_max_x(vs@.take(i as int)),
            max_y == spec_max_y(vs@.take(i as int)),
            coord_ok(min_x) && coord_ok(min_y) && coord_ok(max_x) && coord_ok(max_y),
            min_x <= max_x && min_y <= max_y,
        decreases vs@.len() - i,
    {
        proof {
            assert(vs@.take(i + 1).drop_last() =~= vs@.take(i as int));
            assert(vs@.take(i + 1).last() == vs@[i as int]);
        }
        let v = vs[i];
        if v.x < min_x {
            min_x = v.x;
        }
        if v.y < min_y {
            min_y = v.y;
        }
        if v.x > max_x {
            max_x = v.x;
        }
        if v.y > max_y {
            max_y = v.y;
        }
        i = i + 1;
    }
    proof {
        assert(vs@.take(vs@.len() as int) =~= vs@);
    }
    Rect { x: min_x, y: min_y, width: max_x - min_x, height: max_y - min_y }
}

fn abs_i64(v: i64) -> (r: i64)
    requires
        v > i64::MIN,
    ensures
        r == spec_abs(v as int),
{
    if v >= 0 {
        v
    } else {
        -v
    }
}

} // verus!
