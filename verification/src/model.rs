//! The annotation entity, its lifecycle states, and the collection that owns
//! the shapes of the currently displayed image.

use vstd::prelude::*;

verus! {

use crate::coord_ok;
use crate::geometry::{spec_point_hit, spec_rect_hit, Rect};

/// Upper bound (exclusive) on shape ids and on the id counter, so that the
/// counter can always be incremented.
pub const ID_LIMIT: i64 = 0x4000_0000_0000_0000;

/// Bound on the magnitude of a class label, so that the one-based/zero-based
/// shift of the label format can never overflow.
pub const CLASS_LIMIT: i64 = 1_000_000_000;

/// The four shape kinds.
#[derive(Clone, Copy, PartialEq, Eq, Structural, Debug)]
pub enum ShapeKind {
    Point,
    Box,
    RotatedBox,
    Polygon,
}

/// Review status of one shape.  `Rejected` is the soft-delete tombstone: the
/// shape stays in the collection but is hidden from hit tests and edits.
#[derive(Clone, Copy, PartialEq, Eq, Structural, Debug)]
pub enum Lifecycle {
    Pending,
    Manual,
    Accepted,
    Rejected,
}

/// One polygon vertex, in fixed-point coordinates.
#[derive(Clone, Copy, PartialEq, Eq, Structural, Debug)]
pub struct Vertex {
    pub x: i64,
    pub y: i64,
}

/// One labeled shape.  For `Point`, `(x, y)` is the location and the extents
/// are zero; for boxes, `(x, y)` is the top-left corner; for `Polygon`, the
/// rectangle fields cache the axis-aligned bounding box and `vertices` is the
/// authoritative outline.
pub struct Annotation {
    pub id: i64,
    pub kind: ShapeKind,
    pub x: i64,
    pub y: i64,
    pub width: i64,
    pub height: i64,
    pub rotation: i64,
    pub vertices: Vec<Vertex>,
    pub class_id: i64,
    pub state: Lifecycle,
    pub selected: bool,
}

/// Mathematical image of an [`Annotation`].
pub struct AnnView {
    pub id: i64,
    pub kind: ShapeKind,
    pub x: i64,
    pub y: i64,
    pub width: i64,
    pub height: i64,
    pub rotation: i64,
    pub vertices: Seq<Vertex>,
    pub class_id: i64,
    pub state: Lifecycle,
    pub selected: bool,
}

impl View for Annotation {
    type V = AnnView;

    open spec fn view(&self) -> AnnView {
        AnnView {
            id: self.id,
            kind: self.kind,
            x: self.x,
            y: self.y,
            width: self.width,
            height: self.height,
            rotation: self.rotation,
            vertices: self.vertices@,
            class_id: self.class_id,
            state: self.state,
            selected: self.selected,
        }
    }
}

/// The view of a whole shape list.
pub open spec fn anns_view(v: Seq<Annotation>) -> Seq<AnnView> {
    v.map_values(|a: Annotation| a@)
}

/// A shape whose bounding fields the geometry and persistence code may do
/// arithmetic on.
pub open spec fn ann_wf(a: AnnView) -> bool {
    &&& coord_ok(a.x)
    &&& coord_ok(a.y)
    &&& coord_ok(a.width)
    &&& coord_ok(a.height)
    &&& 0 <= a.id < ID_LIMIT
    &&& -CLASS_LIMIT <= a.class_id <= CLASS_LIMIT
}

impl Annotation {
    /// The cached bounding rectangle of the shape.
    pub open spec fn spec_bounds(self) -> Rect {
        Rect { x: self.x, y: self.y, width: self.width, height: self.height }
    }

    /// The cached bounding rectangle, as stored.
    pub fn bounds(&self) -> (r: Rect)
        ensures
            r == self.spec_bounds(),
    {
        Rect { x: self.x, y: self.y, width: self.width, height: self.height }
    }

    /// An independent copy: nothing is shared with `self`.
    pub fn duplicate(&self) -> (r: Annotation)
        ensures
            r@ == self@,
    {
        Annotation {
            id: self.id,
            kind: self.kind,
            x: self.x,
            y: self.y,
            width: self.width,
            height: self.height,
            rotation: self.rotation,
            vertices: duplicate_vertex_list(&self.vertices),
            class_id: self.class_id,
            state: self.state,
            selected: self.selected,
        }
    }

    /// Runtime check of [`ann_wf`], for callers that receive shapes from
    /// outside the library.
    pub fn is_wf(&self) -> (r: bool)
        ensures
            r == ann_wf(self@),
    {
        coord_in_range(self.x) && coord_in_range(self.y) && coord_in_range(self.width)
            && coord_in_range(self.height) && 0 <= self.id && self.id < ID_LIMIT
            && -CLASS_LIMIT <= self.class_id && self.class_id <= CLASS_LIMIT
    }
}

fn coord_in_range(v: i64) -> (r: bool)
    ensures
        r == coord_ok(v),
{
    -crate::COORD_LIMIT <= v && v <= crate::COORD_LIMIT
}

/// An element-by-element copy of a vertex list.
pub fn duplicate_vertex_list(v: &Vec<Vertex>) -> (r: Vec<Vertex>)
    ensures
        r@ == v@,
{
    let mut out: Vec<Vertex> = Vec::new();
    let mut i: usize = 0;
    while i < v.len()
        invariant
            0 <= i <= v.len(),
            out@ == v@.take(i as int),
        decreases v.len() - i,
    {
        out.push(v[i]);
        i = i + 1;
    }
    proof {
        assert(v@.take(v@.len() as int) =~= v@);
    }
    out
}

/// Deep copy of a whole shape list, used for history snapshots and the
/// clipboard: no shape is aliased between the copy and the original.
pub fn snapshot_annotations(anns: &Vec<Annotation>) -> (r: Vec<Annotation>)
    ensures
        anns_view(r@) == anns_view(anns@),
{
    let mut out: Vec<Annotation> = Vec::new();
    let mut i: usize = 0;
    while i < anns.len()
        invariant
            0 <= i <= anns.len(),
            anns_view(out@) == anns_view(anns@.take(i as int)),
        decreases anns.len() - i,
    {
        out.push(anns[i].duplicate());
        proof {
            assert(anns_view(anns@.take(i + 1)) =~= anns_view(anns@.take(i as int)).push(
                anns@[i as int]@,
            ));
            assert(anns_view(out@) =~= anns_view(anns@.take(i + 1)));
        }
        i = i + 1;
    }
    proof {
        assert(anns@.take(anns@.len() as int) =~= anns@);
    }
    out
}

/// Largest id present, plus one; or `default_start` for an empty list.
pub open spec fn spec_next_id(anns: Seq<AnnView>, default_start: i64) -> int
    decreases anns.len(),
{
    if anns.len() == 0 {
        default_start as int
    } else {
        let rest = spec_next_id(anns.drop_last(), default_start);
        let from_last = anns.last().id + 1;
        if anns.len() == 1 {
            from_last
        } else if from_last >= rest {
            from_last
        } else {
            rest
        }
    }
}

/// An upper bound on every id (plus one) and on the default start is an
/// upper bound on the allocated id.
pub proof fn lemma_spec_next_id_bound(anns: Seq<AnnView>, default_start: i64, b: int)
    requires
        default_start <= b,
        forall|i: int| 0 <= i < anns.len() ==> #[trigger] anns[i].id + 1 <= b,
    ensures
        spec_next_id(anns, default_start) <= b,
    decreases anns.len(),
{
    if anns.len() > 0 {
        assert(anns.last() == anns[anns.len() - 1]);
        assert forall|i: int| 0 <= i < anns.drop_last().len() implies #[trigger] anns.drop_last()[i].id
            + 1 <= b by {
            assert(anns.drop_last()[i] == anns[i]);
        }
        lemma_spec_next_id_bound(anns.drop_last(), default_start, b);
    }
}

/// The id the next created shape should take: one above the maximum id
/// present, or `default_start` when the list is empty.
pub fn next_id_from_annotations(anns: &Vec<Annotation>, default_start: i64) -> (r: i64)
    requires
        forall|i: int| 0 <= i < anns@.len() ==> 0 <= #[trigger] anns@[i]@.id < ID_LIMIT,
    ensures
        r == spec_next_id(anns_view(anns@), default_start),
        anns@.len() > 0 ==> forall|i: int| 0 <= i < anns@.len() ==> #[trigger] anns@[i]@.id < r,
{
    let ghost avs = anns_view(anns@);
    let mut i: usize = 0;
    let mut best: Option<i64> = None;
    while i < anns.len()
        invariant
            0 <= i <= anns.len(),
            avs == anns_view(anns@),
            avs.len() == anns@.len(),
            forall|k: int| 0 <= k < anns@.len() ==> 0 <= #[trigger] anns@[k]@.id < ID_LIMIT,
            forall|k: int| 0 <= k < anns@.len() ==> avs[k] == anns@[k]@,
            i == 0 ==> best is None,
            i > 0 ==> best is Some && best->0 == spec_next_id(avs.take(i as int), default_start),
            i > 0 ==> forall|k: int| 0 <= k < i ==> #[trigger] anns@[k]@.id < best->0,
            best is Some ==> 0 < best->0 <= ID_LIMIT,
        decreases anns.len() - i,
    {
        proof {
            assert(0 <= anns@[i as int]@.id < ID_LIMIT);
        }
        let cand = anns[i].id + 1;
        let new_best = match best {
            None => cand,
            Some(b) =>
                if cand >= b {
                    cand
                } else {
                    b
                },
        };
        proof {
            assert(avs.take(i + 1).drop_last() =~= avs.take(i as int));
            assert(avs.take(i + 1).last() == avs[i as int]);
        }
        best = Some(new_best);
        i = i + 1;
    }
    proof {
        assert(avs.take(avs.len() as int) =~= avs);
    }
    match best {
        None => default_start,
        Some(b) => b,
    }
}

/// Whether a click at `(px, py)` hits the shape: distance below the hit
/// radius for a point, containment in the cached bounding rectangle for
/// every other kind (rotation is deliberately ignored).
pub open spec fn spec_shape_hit(px: int, py: int, a: AnnView) -> bool {
    if a.kind == ShapeKind::Point {
        spec_point_hit(px, py, a.x as int, a.y as int)
    } else {
        spec_rect_hit(px, py, Rect { x: a.x, y: a.y, width: a.width, height: a.height })
    }
}

/// Exec form of [`spec_shape_hit`].
pub fn shape_hit(px: i64, py: i64, a: &Annotation) -> (hit: bool)
    requires
        coord_ok(px),
        coord_ok(py),
        coord_ok(a@.x),
        coord_ok(a@.y),
    ensures
        hit == spec_shape_hit(px as int, py as int, a@),
{
    match a.kind {
        ShapeKind::Point => crate::geometry::point_hit(px, py, a.x, a.y),
        _ => {
            (a.x as i128) <= (px as i128) && (px as i128) <= (a.x as i128) + (a.width as i128) && (
            a.y as i128) <= (py as i128) && (py as i128) <= (a.y as i128) + (a.height as i128)
        },
    }
}

/// The index of the topmost (= last in the list) shape that is not Rejected
/// and whose hit test passes, if any.  This backward scan is the single
/// tie-break rule for every click-driven operation.
pub open spec fn spec_topmost_hit(anns: Seq<AnnView>, px: int, py: int) -> Option<int>
    decreases anns.len(),
{
    if anns.len() == 0 {
        None
    } else {
        let last = anns.last();
        if last.state != Lifecycle::Rejected && spec_shape_hit(px, py, last) {
            Some(anns.len() - 1)
        } else {
            spec_topmost_hit(anns.drop_last(), px, py)
        }
    }
}

/// A Rejected shape is invisible to the topmost-hit scan: the scan never
/// answers with its index.
pub proof fn lemma_rejected_not_hit(anns: Seq<AnnView>, px: int, py: int, i: int)
    requires
        0 <= i < anns.len(),
        anns[i].state == Lifecycle::Rejected,
    ensures
        spec_topmost_hit(anns, px, py) != Some(i),
    decreases anns.len(),
{
    if anns.len() > 0 {
        let last = anns.last();
        if last.state != Lifecycle::Rejected && spec_shape_hit(px, py, last) {
        } else {
            if i < anns.len() - 1 {
                lemma_rejected_not_hit(anns.drop_last(), px, py, i);
            } else {
                if spec_topmost_hit(anns.drop_last(), px, py) is Some {
                    lemma_topmost_hit_is_hit(anns.drop_last(), px, py);
                }
            }
        }
    }
}

/// Whatever the scan answers is a live, hit shape.
pub proof fn lemma_topmost_hit_is_hit(anns: Seq<AnnView>, px: int, py: int)
    requires
        spec_topmost_hit(anns, px, py) is Some,
    ensures
        0 <= spec_topmost_hit(anns, px, py)->0 < anns.len(),
        anns[spec_topmost_hit(anns, px, py)->0].state != Lifecycle::Rejected,
        spec_shape_hit(px, py, anns[spec_topmost_hit(anns, px, py)->0]),
    decreases anns.len(),
{
    let last = anns.last();
    if last.state != Lifecycle::Rejected && spec_shape_hit(px, py, last) {
    } else {
        lemma_topmost_hit_is_hit(anns.drop_last(), px, py);
    }
}

/// Backward scan for the topmost live shape hit by `(px, py)`.
pub fn topmost_hit(anns: &Vec<Annotation>, px: i64, py: i64) -> (r: Option<usize>)
    requires
        coord_ok(px),
        coord_ok(py),
        forall|i: int| 0 <= i < anns@.len() ==> ann_wf(#[trigger] anns@[i]@),
    ensures
        match r {
            Some(i) => 0 <= i < anns@.len() && spec_topmost_hit(
                anns_view(anns@),
                px as int,
                py as int,
            ) == Some(i as int),
            None => spec_topmost_hit(anns_view(anns@), px as int, py as int) is None,
        },
{
    let ghost avs = anns_view(anns@);
    proof {
        assert(avs.take(anns@.len() as int) =~= avs);
    }
    let mut i: usize = anns.len();
    while i > 0
        invariant
            0 <= i <= anns.len(),
            coord_ok(px),
            coord_ok(py),
            forall|k: int| 0 <= k < anns@.len() ==> ann_wf(#[trigger] anns@[k]@),
            avs == anns_view(anns@),
            avs.len() == anns@.len(),
            forall|k: int| 0 <= k < anns@.len() ==> avs[k] == #[trigger] anns@[k]@,
            spec_topmost_hit(avs, px as int, py as int) == spec_topmost_hit(
                avs.take(i as int),
                px as int,
                py as int,
            ),
        decreases i,
    {
        i = i - 1;
        let a = &anns[i];
        proof {
            assert(ann_wf(anns@[i as int]@));
            assert(avs.take(i + 1).last() == avs[i as int]);
            assert(avs.take(i + 1).drop_last() =~= avs.take(i as int));
        }
        let live = match a.state {
            Lifecycle::Rejected => false,
            _ => true,
        };
        if live && shape_hit(px, py, a) {
            return Some(i);
        }
    }
    None
}

/// The index of the topmost live box (plain or rotated) containing the
/// click, if any — the target the automatic refinement works on.
pub open spec fn spec_topmost_box_hit(anns: Seq<AnnView>, px: int, py: int) -> Option<int>
    decreases anns.len(),
{
    if anns.len() == 0 {
        None
    } else {
        let last = anns.last();
        if last.state != Lifecycle::Rejected && (last.kind == ShapeKind::Box || last.kind
            == ShapeKind::RotatedBox) && spec_rect_hit(
            px,
            py,
            Rect { x: last.x, y: last.y, width: last.width, height: last.height },
        ) {
            Some(anns.len() - 1)
        } else {
            spec_topmost_box_hit(anns.drop_last(), px, py)
        }
    }
}

/// Whatever the box scan answers is a live box containing the click.
pub proof fn lemma_topmost_box_hit_is_hit(anns: Seq<AnnView>, px: int, py: int)
    requires
        spec_topmost_box_hit(anns, px, py) is Some,
    ensures
        0 <= spec_topmost_box_hit(anns, px, py)->0 < anns.len(),
        anns[spec_topmost_box_hit(anns, px, py)->0].state != Lifecycle::Rejected,
    decreases anns.len(),
{
    let last = anns.last();
    if last.state != Lifecycle::Rejected && (last.kind == ShapeKind::Box || last.kind
        == ShapeKind::RotatedBox) && spec_rect_hit(
        px,
        py,
        Rect { x: last.x, y: last.y, width: last.width, height: last.height },
    ) {
    } else {
        lemma_topmost_box_hit_is_hit(anns.drop_last(), px, py);
    }
}

/// Backward scan for the topmost live box under the click.
pub fn topmost_box_hit(anns: &Vec<Annotation>, px: i64, py: i64) -> (r: Option<usize>)
    ensures
        match r {
            Some(i) => 0 <= i < anns@.len() && spec_topmost_box_hit(
                anns_view(anns@),
                px as int,
                py as int,
            ) == Some(i as int),
            None => spec_topmost_box_hit(anns_view(anns@), px as int, py as int) is None,
        },
{
    let ghost avs = anns_view(anns@);
    proof {
        assert(avs.take(anns@.len() as int) =~= avs);
    }
    let mut i: usize = anns.len();
    while i > 0
        invariant
            0 <= i <= anns.len(),
            avs == anns_view(anns@),
            avs.len() == anns@.len(),
            forall|k: int| 0 <= k < anns@.len() ==> avs[k] == #[trigger] anns@[k]@,
            spec_topmost_box_hit(avs, px as int, py as int) == spec_topmost_box_hit(
                avs.take(i as int),
                px as int,
                py as int,
            ),
        decreases i,
    {
        i = i - 1;
        let a = &anns[i];
        proof {
            assert(avs.take(i + 1).last() == avs[i as int]);
            assert(avs.take(i + 1).drop_last() =~= avs.take(i as int));
        }
        let live = match a.state {
            Lifecycle::Rejected => false,
            _ => true,
        };
        let is_box = match a.kind {
            ShapeKind::Box => true,
            ShapeKind::RotatedBox => true,
            _ => false,
        };
        let inside = (a.x as i128) <= (px as i128) && (px as i128) <= (a.x as i128) + (a.width
            as i128) && (a.y as i128) <= (py as i128) && (py as i128) <= (a.y as i128) + (a.height
            as i128);
        if live && is_box && inside {
            return Some(i);
        }
    }
    None
}

} // verus!
