//! The editing session for one image: the live collection, the undo/redo
//! history, the clipboard, and the transient drawing and resize gesture
//! state, with the push-before-mutate discipline enforced in one place.

use vstd::prelude::*;

verus! {

use crate::coord_ok;
use crate::collection::{AnnotationCollection, SelectMode};
use crate::geometry::{drag_rect, resize_transform, spec_drag_rect, spec_resize, Rect, ResizeHandle};
use crate::history::{spec_push, spec_redo, spec_undo, SnapView, UndoHistory};
use crate::model::{ann_wf, anns_view, AnnView, Annotation, Lifecycle, Vertex, CLASS_LIMIT, ID_LIMIT};

/// The two drawing tools a drag gesture can commit as.
#[derive(Clone, Copy, PartialEq, Eq, Structural, Debug)]
pub enum DrawTool {
    BoxTool,
    PointTool,
}

/// Transient state of an in-progress drag or polygon gesture.
pub struct DrawState {
    pub start_x: i64,
    pub start_y: i64,
    pub polygon_vertices: Vec<Vertex>,
}

/// Transient state of an in-progress resize drag: the grabbed shape, the
/// handle, and the bounds at grab time, which every update is computed from.
pub struct ResizeState {
    pub index: usize,
    pub handle: ResizeHandle,
    pub orig: Rect,
}

/// A snapshot that could have come from a well-formed collection: bounded
/// shapes with pairwise distinct ids.
pub open spec fn snap_wf(s: SnapView) -> bool {
    &&& forall|i: int| 0 <= i < s.len() ==> ann_wf(#[trigger] s[i])
    &&& forall|i: int, j: int|
        #![trigger s[i].id, s[j].id]
        0 <= i < j < s.len() ==> s[i].id != s[j].id
}

/// Every snapshot on a stack is well-formed.
pub open spec fn snaps_wf(stack: Seq<SnapView>) -> bool {
    forall|k: int| 0 <= k < stack.len() ==> snap_wf(#[trigger] stack[k])
}

/// The whole editing session for the displayed image.
pub struct Editor {
    pub annotations: AnnotationCollection,
    pub history: UndoHistory,
    pub clipboard: Vec<Annotation>,
    pub draw: DrawState,
    pub resize: Option<ResizeState>,
}

impl Editor {
    /// Session invariant: the collection and history are well-formed, every
    /// stored snapshot and clipboard shape is bounded with distinct ids, and
    /// the recorded gesture coordinates lie in the coordinate domain.
    pub open spec fn wf(&self) -> bool {
        &&& self.annotations.wf()
        &&& self.history.wf()
        &&& snaps_wf(self.history.undo_view())
        &&& snaps_wf(self.history.redo_view())
        &&& forall|k: int|
            0 <= k < self.clipboard@.len() ==> ann_wf(#[trigger] self.clipboard@[k]@)
        &&& coord_ok(self.draw.start_x)
        &&& coord_ok(self.draw.start_y)
        &&& forall|k: int|
            0 <= k < self.draw.polygon_vertices@.len() ==> coord_ok(
                #[trigger] self.draw.polygon_vertices@[k].x,
            ) && coord_ok(self.draw.polygon_vertices@[k].y)
        &&& match self.resize {
            Some(rs) => rs.orig.wf(),
            None => true,
        }
    }

    /// The live shape list, as mathematics.
    pub open spec fn shapes(&self) -> SnapView {
        self.annotations.view_items()
    }

    /// A fresh session: empty collection, empty bounded history, empty
    /// clipboard, no gesture in progress.
    pub fn new(next_id_start: i64, history_depth: usize) -> (r: Editor)
        requires
            0 < next_id_start < ID_LIMIT,
            history_depth >= 1,
        ensures
            r.wf(),
            r.shapes() =~= Seq::<AnnView>::empty(),
            r.history.undo_view() =~= Seq::<SnapView>::empty(),
            r.history.redo_view() =~= Seq::<SnapView>::empty(),
            r.clipboard@.len() == 0,
            r.annotations.next_id == next_id_start,
            r.history.max_depth == history_depth,
    {
        Editor {
            annotations: AnnotationCollection::new(next_id_start),
            history: UndoHistory::new(history_depth),
            clipboard: Vec::new(),
            draw: DrawState { start_x: 0, start_y: 0, polygon_vertices: Vec::new() },
            resize: None,
        }
    }

    /// The current collection is a well-formed snapshot.
    proof fn lemma_current_snap_wf(&self)
        requires
            self.annotations.wf(),
        ensures
            snap_wf(self.shapes()),
    {
    }

    /// Pushing the pre-mutation snapshot keeps every stored snapshot
    /// well-formed.
    proof fn lemma_push_keeps_snaps_wf(&self, prev: &Editor, snap: SnapView)
        requires
            prev.history.wf(),
            snaps_wf(prev.history.undo_view()),
            snap_wf(snap),
            (self.history.undo_view(), self.history.redo_view()) == spec_push(
                prev.history.undo_view(),
                prev.history.max_depth as int,
                snap,
            ),
        ensures
            snaps_wf(self.history.undo_view()),
            snaps_wf(self.history.redo_view()),
    {
        let old_undo = prev.history.undo_view();
        let cap = prev.history.max_depth as int;
        let trimmed = if old_undo.len() >= cap {
            old_undo.subrange(1, old_undo.len() as int)
        } else {
            old_undo
        };
        assert(self.history.undo_view() == trimmed.push(snap));
        assert forall|k: int| 0 <= k < self.history.undo_view().len() implies snap_wf(
            #[trigger] self.history.undo_view()[k],
        ) by {
            assert(self.history.undo_view()[k] == trimmed.push(snap)[k]);
            if k < trimmed.len() {
                if old_undo.len() >= cap {
                    assert(trimmed[k] == old_undo[k + 1]);
                    assert(snap_wf(old_undo[k + 1]));
                } else {
                    assert(trimmed[k] == old_undo[k]);
                    assert(snap_wf(old_undo[k]));
                }
            } else {
                assert(trimmed.push(snap)[k] == snap);
            }
        }
    }

    /// Record the pre-mutation state of the collection in the history.
    fn push_history(&mut self)
        requires
            old(self).wf(),
        ensures
            final(self).wf(),
            final(self).annotations == old(self).annotations,
            final(self).clipboard == old(self).clipboard,
            final(self).draw == old(self).draw,
            final(self).resize == old(self).resize,
            final(self).history.max_depth == old(self).history.max_depth,
            (final(self).history.undo_view(), final(self).history.redo_view()) == spec_push(
                old(self).history.undo_view(),
                old(self).history.max_depth as int,
                old(self).shapes(),
            ),
    {
        let snapshot = self.annotations.snapshot();
        self.history.push(snapshot);
        proof {
            old(self).lemma_current_snap_wf();
            self.lemma_push_keeps_snaps_wf(old(self), old(self).shapes());
        }
    }

    /// Soft-delete the topmost live shape under the click.  The pre-mutation
    /// snapshot is pushed first, whether or not anything is hit.
    pub fn delete_annotation_at(&mut self, px: i64, py: i64) -> (deleted: bool)
        requires
            old(self).wf(),
            coord_ok(px),
            coord_ok(py),
        ensures
            final(self).wf(),
            (final(self).history.undo_view(), final(self).history.redo_view()) == spec_push(
                old(self).history.undo_view(),
                old(self).history.max_depth as int,
                old(self).shapes(),
            ),
            final(self).shapes().len() == old(self).shapes().len(),
            match crate::model::spec_topmost_hit(old(self).shapes(), px as int, py as int) {
                Some(i) => deleted && final(self).shapes() =~= old(self).shapes().update(
                    i,
                    crate::collection::reject_view(old(self).shapes()[i]),
                ),
                None => !deleted && final(self).shapes() == old(self).shapes(),
            },
    {
        self.push_history();
        self.annotations.delete_at_point(px, py)
    }

    /// Soft-delete the shape at `index` (double-click delete), pushing the
    /// pre-mutation snapshot first.
    pub fn delete_annotation(&mut self, index: usize)
        requires
            old(self).wf(),
        ensures
            final(self).wf(),
            (final(self).history.undo_view(), final(self).history.redo_view()) == spec_push(
                old(self).history.undo_view(),
                old(self).history.max_depth as int,
                old(self).shapes(),
            ),
            final(self).shapes().len() == old(self).shapes().len(),
            index < old(self).shapes().len() ==> final(self).shapes() =~= old(
                self,
            ).shapes().update(
                index as int,
                crate::collection::reject_view(old(self).shapes()[index as int]),
            ),
            index >= old(self).shapes().len() ==> final(self).shapes() == old(self).shapes(),
    {
        self.push_history();
        self.annotations.delete_at_index(index);
    }

    /// Soft-delete every selected shape, pushing the pre-mutation snapshot
    /// first.  Returns how many shapes were deleted.
    pub fn delete_selected(&mut self) -> (count: usize)
        requires
            old(self).wf(),
        ensures
            final(self).wf(),
            (final(self).history.undo_view(), final(self).history.redo_view()) == spec_push(
                old(self).history.undo_view(),
                old(self).history.max_depth as int,
                old(self).shapes(),
            ),
            final(self).shapes().len() == old(self).shapes().len(),
            forall|k: int|
                0 <= k < old(self).shapes().len() ==> final(self).shapes()[k] == (
                if old(self).shapes()[k].selected {
                    crate::collection::reject_view(#[trigger] old(self).shapes()[k])
                } else {
                    old(self).shapes()[k]
                }),
            count == old(self).shapes().filter(|a: AnnView| a.selected).len(),
    {
        self.push_history();
        self.annotations.delete_selected()
    }

    /// Reclassify the topmost live shape under the click, pushing the
    /// pre-mutation snapshot first.
    pub fn classify_at(&mut self, px: i64, py: i64, class_id: i64) -> (changed: bool)
        requires
            old(self).wf(),
            coord_ok(px),
            coord_ok(py),
            -CLASS_LIMIT <= class_id <= CLASS_LIMIT,
        ensures
            final(self).wf(),
            (final(self).history.undo_view(), final(self).history.redo_view()) == spec_push(
                old(self).history.undo_view(),
                old(self).history.max_depth as int,
                old(self).shapes(),
            ),
            final(self).shapes().len() == old(self).shapes().len(),
            match crate::model::spec_topmost_hit(old(self).shapes(), px as int, py as int) {
                Some(i) => changed && final(self).shapes() =~= old(self).shapes().update(
                    i,
                    crate::collection::classify_view(old(self).shapes()[i], class_id),
                ),
                None => !changed && final(self).shapes() == old(self).shapes(),
            },
    {
        self.push_history();
        self.annotations.classify_at_point(px, py, class_id)
    }

    /// Reclassify every selected, live shape, pushing the pre-mutation
    /// snapshot first.
    pub fn classify_selected(&mut self, class_id: i64) -> (changed: bool)
        requires
            old(self).wf(),
            -CLASS_LIMIT <= class_id <= CLASS_LIMIT,
        ensures
            final(self).wf(),
            (final(self).history.undo_view(), final(self).history.redo_view()) == spec_push(
                old(self).history.undo_view(),
                old(self).history.max_depth as int,
                old(self).shapes(),
            ),
            final(self).shapes().len() == old(self).shapes().len(),
            forall|k: int|
                0 <= k < old(self).shapes().len() ==> final(self).shapes()[k] == (
                if old(self).shapes()[k].selected && old(self).shapes()[k].state
                    != Lifecycle::Rejected {
                    crate::collection::classify_view(#[trigger] old(self).shapes()[k], class_id)
                } else {
                    old(self).shapes()[k]
                }),
            changed == exists|k: int|
                0 <= k < old(self).shapes().len() && #[trigger] old(self).shapes()[k].selected
                    && old(self).shapes()[k].state != Lifecycle::Rejected,
    {
        self.push_history();
        self.annotations.classify_selected(class_id)
    }

    /// Undo: install the most recent snapshot, parking the live collection on
    /// the redo stack.  Returns whether anything was undone.
    pub fn undo_action(&mut self) -> (undone: bool)
        requires
            old(self).wf(),
        ensures
            final(self).wf(),
            old(self).history.undo_view().len() == 0 ==> !undone && final(self).shapes() == old(
                self,
            ).shapes() && final(self).history.undo_view() == old(self).history.undo_view()
                && final(self).history.redo_view() == old(self).history.redo_view(),
            old(self).history.undo_view().len() > 0 ==> undone && (
            final(self).history.undo_view(),
            final(self).history.redo_view(),
            Some(final(self).shapes()),
            ) == spec_undo(
                old(self).history.undo_view(),
                old(self).history.redo_view(),
                old(self).shapes(),
            ),
    {
        let current = self.annotations.snapshot();
        let ghost old_undo = self.history.undo_view();
        match self.history.undo(current) {
            None => false,
            Some(previous) => {
                proof {
                    assert(snap_wf(old_undo.last()));
                    assert(anns_view(previous@) == old_undo.last());
                    assert forall|i: int| 0 <= i < previous@.len() implies ann_wf(
                        #[trigger] previous@[i]@,
                    ) by {
                        assert(anns_view(previous@)[i] == previous@[i]@);
                    }
                    assert forall|i: int, j: int|
                        #![trigger previous@[i]@.id, previous@[j]@.id]
                        0 <= i < j < previous@.len() implies previous@[i]@.id
                        != previous@[j]@.id by {
                        assert(anns_view(previous@)[i] == previous@[i]@);
                        assert(anns_view(previous@)[j] == previous@[j]@);
                    }
                    assert forall|k: int| 0 <= k < self.history.undo_view().len() implies snap_wf(
                        #[trigger] self.history.undo_view()[k],
                    ) by {
                        assert(old_undo[k] == self.history.undo_view()[k]);
                    }
                    old(self).lemma_current_snap_wf();
                }
                self.annotations.install(previous);
                true
            },
        }
    }

    /// Redo: the mirror image of [`Editor::undo_action`].
    pub fn redo_action(&mut self) -> (redone: bool)
        requires
            old(self).wf(),
        ensures
            final(self).wf(),
            old(self).history.redo_view().len() == 0 ==> !redone && final(self).shapes() == old(
                self,
            ).shapes() && final(self).history.undo_view() == old(self).history.undo_view()
                && final(self).history.redo_view() == old(self).history.redo_view(),
            old(self).history.redo_view().len() > 0 ==> redone && (
            final(self).history.undo_view(),
            final(self).history.redo_view(),
            Some(final(self).shapes()),
            ) == spec_redo(
                old(self).history.undo_view(),
                old(self).history.redo_view(),
                old(self).shapes(),
            ),
    {
        let current = self.annotations.snapshot();
        let ghost old_redo = self.history.redo_view();
        match self.history.redo(current) {
            None => false,
            Some(next) => {
                proof {
                    assert(snap_wf(old_redo.last()));
                    assert(anns_view(next@) == old_redo.last());
                    assert forall|i: int| 0 <= i < next@.len() implies ann_wf(
                        #[trigger] next@[i]@,
                    ) by {
                        assert(anns_view(next@)[i] == next@[i]@);
                    }
                    assert forall|i: int, j: int|
                        #![trigger next@[i]@.id, next@[j]@.id]
                        0 <= i < j < next@.len() implies next@[i]@.id != next@[j]@.id by {
                        assert(anns_view(next@)[i] == next@[i]@);
                        assert(anns_view(next@)[j] == next@[j]@);
                    }
                    assert forall|k: int| 0 <= k < self.history.redo_view().len() implies snap_wf(
                        #[trigger] self.history.redo_view()[k],
                    ) by {
                        assert(old_redo[k] == self.history.redo_view()[k]);
                    }
                    old(self).lemma_current_snap_wf();
                }
                self.annotations.install(next);
                true
            },
        }
    }

    /// Copy: snapshot every selected shape into the clipboard.  With nothing
    /// selected the clipboard is left as it was (the gesture is a no-op).
    pub fn copy_annotation(&mut self) -> (copied: usize)
        requires
            old(self).wf(),
        ensures
            final(self).wf(),
            final(self).annotations == old(self).annotations,
            final(self).history == old(self).history,
            copied == old(self).shapes().filter(|a: AnnView| a.selected).len(),
            copied > 0 ==> anns_view(final(self).clipboard@) == old(self).shapes().filter(
                |a: AnnView| a.selected,
            ),
            copied == 0 ==> final(self).clipboard == old(self).clipboard,
    {
        let copied = self.annotations.copy_selected();
        if copied.len() > 0 {
            let n = copied.len();
            self.clipboard = copied;
            n
        } else {
            copied.len()
        }
    }

    /// Paste the clipboard with fresh ids and the fixed offset, pushing the
    /// pre-mutation snapshot first.  An empty clipboard is a no-op that also
    /// leaves the history alone; a full id space leaves everything alone.
    pub fn paste_annotation(&mut self) -> (pasted: usize)
        requires
            old(self).wf(),
        ensures
            final(self).wf(),
            final(self).clipboard == old(self).clipboard,
            final(self).draw == old(self).draw,
            final(self).resize == old(self).resize,
            old(self).clipboard@.len() == 0 ==> pasted == 0 && final(self).shapes() == old(
                self,
            ).shapes() && final(self).history == old(self).history,
            old(self).clipboard@.len() > 0 && old(self).annotations.next_id + old(
                self,
            ).clipboard@.len() > ID_LIMIT ==> pasted == 0 && final(self).shapes() == old(
                self,
            ).shapes() && final(self).history == old(self).history,
            old(self).clipboard@.len() > 0 && old(self).annotations.next_id + old(
                self,
            ).clipboard@.len() <= ID_LIMIT ==> {
                let start = crate::model::spec_next_id(old(self).shapes(), 1);
                &&& pasted == old(self).clipboard@.len()
                &&& (final(self).history.undo_view(), final(self).history.redo_view())
                    == spec_push(
                    old(self).history.undo_view(),
                    old(self).history.max_depth as int,
                    old(self).shapes(),
                )
                &&& final(self).shapes() =~= old(self).shapes() + Seq::new(
                    old(self).clipboard@.len(),
                    |k: int| crate::collection::paste_view(
                        old(self).clipboard@[k]@,
                        (start + k) as i64,
                    ),
                )
            },
    {
        if self.clipboard.len() == 0 {
            return 0;
        }
        let headroom = (ID_LIMIT - self.annotations.next_id) as u64;
        if self.clipboard.len() as u64 > headroom {
            return 0;
        }
        self.push_history();
        let pasted = self.annotations.paste(&self.clipboard);
        pasted
    }

    /// Begin a drag gesture: remember the anchor and deselect every shape, as
    /// starting a new drawing does.
    pub fn start_drawing(&mut self, x: i64, y: i64)
        requires
            old(self).wf(),
            coord_ok(x),
            coord_ok(y),
        ensures
            final(self).wf(),
            final(self).draw.start_x == x,
            final(self).draw.start_y == y,
            final(self).draw.polygon_vertices == old(self).draw.polygon_vertices,
            final(self).history == old(self).history,
            final(self).clipboard == old(self).clipboard,
            final(self).resize == old(self).resize,
            final(self).annotations.next_id == old(self).annotations.next_id,
            final(self).shapes().len() == old(self).shapes().len(),
            forall|k: int|
                0 <= k < old(self).shapes().len() ==> final(self).shapes()[k]
                    == crate::collection::select_view(#[trigger] old(self).shapes()[k], false),
    {
        self.annotations.select_all(false);
        self.draw.start_x = x;
        self.draw.start_y = y;
    }

    /// The live preview rectangle for the current cursor position: the
    /// normalized drag rectangle from the anchor.
    pub fn update_drawing(&self, cx: i64, cy: i64) -> (r: Rect)
        requires
            self.wf(),
            coord_ok(cx),
            coord_ok(cy),
        ensures
            r == spec_drag_rect(self.draw.start_x as int, self.draw.start_y as int, cx as int, cy as int),
    {
        drag_rect(self.draw.start_x, self.draw.start_y, cx, cy)
    }

    /// Commit a drag gesture: push the pre-mutation snapshot, then create a
    /// box (if the dragged rectangle reaches the minimum footprint) or a
    /// point at the cursor, depending on the active tool.
    pub fn finish_drawing(&mut self, cx: i64, cy: i64, tool: DrawTool, class_id: i64) -> (created:
        bool)
        requires
            old(self).wf(),
            coord_ok(cx),
            coord_ok(cy),
            -CLASS_LIMIT <= class_id <= CLASS_LIMIT,
            old(self).annotations.next_id < ID_LIMIT,
        ensures
            final(self).wf(),
            (final(self).history.undo_view(), final(self).history.redo_view()) == spec_push(
                old(self).history.undo_view(),
                old(self).history.max_depth as int,
                old(self).shapes(),
            ),
            ({
                let rect = spec_drag_rect(
                    old(self).draw.start_x as int,
                    old(self).draw.start_y as int,
                    cx as int,
                    cy as int,
                );
                match tool {
                    DrawTool::BoxTool => {
                        &&& created == (rect.width >= crate::collection::MIN_BOX_DIM
                            && rect.height >= crate::collection::MIN_BOX_DIM)
                        &&& created ==> final(self).shapes() =~= old(self).shapes().push(
                            AnnView {
                                id: old(self).annotations.next_id,
                                kind: crate::model::ShapeKind::Box,
                                x: crate::spec_clamp_coord(rect.x as int),
                                y: crate::spec_clamp_coord(rect.y as int),
                                width: crate::spec_clamp_coord(rect.width as int),
                                height: crate::spec_clamp_coord(rect.height as int),
                                rotation: 0,
                                vertices: Seq::empty(),
                                class_id,
                                state: Lifecycle::Manual,
                                selected: false,
                            },
                        )
                        &&& !created ==> final(self).shapes() == old(self).shapes()
                    },
                    DrawTool::PointTool => {
                        &&& created
                        &&& final(self).shapes() =~= old(self).shapes().push(
                            AnnView {
                                id: old(self).annotations.next_id,
                                kind: crate::model::ShapeKind::Point,
                                x: crate::spec_clamp_coord(cx as int),
                                y: crate::spec_clamp_coord(cy as int),
                                width: 0,
                                height: 0,
                                rotation: 0,
                                vertices: Seq::empty(),
                                class_id,
                                state: Lifecycle::Manual,
                                selected: false,
                            },
                        )
                    },
                }
            }),
    {
        self.push_history();
        match tool {
            DrawTool::BoxTool => {
                let rect = drag_rect(self.draw.start_x, self.draw.start_y, cx, cy);
                self.annotations.create_box_from_drag(rect, class_id)
            },
            DrawTool::PointTool => {
                self.annotations.create_point(cx, cy, class_id);
                true
            },
        }
    }

    /// Collect one more vertex of the polygon being drawn.
    pub fn add_polygon_vertex(&mut self, x: i64, y: i64)
        requires
            old(self).wf(),
            coord_ok(x),
            coord_ok(y),
        ensures
            final(self).wf(),
            final(self).annotations == old(self).annotations,
            final(self).history == old(self).history,
            final(self).draw.polygon_vertices@ =~= old(self).draw.polygon_vertices@.push(
                Vertex { x, y },
            ),
    {
        self.draw.polygon_vertices.push(Vertex { x, y });
    }

    /// Commit the polygon being drawn: with three or more collected vertices
    /// the pre-mutation snapshot is pushed and a Polygon shape is appended;
    /// with fewer, nothing is created and the history is left alone.  Either
    /// way the vertex buffer is cleared and the gesture ends.
    pub fn finish_polygon(&mut self, class_id: i64) -> (created: bool)
        requires
            old(self).wf(),
            -CLASS_LIMIT <= class_id <= CLASS_LIMIT,
            old(self).annotations.next_id < ID_LIMIT,
        ensures
            final(self).wf(),
            final(self).clipboard == old(self).clipboard,
            final(self).resize == old(self).resize,
            final(self).draw.polygon_vertices@.len() == 0,
            created == (old(self).draw.polygon_vertices@.len() >= 3),
            !created ==> final(self).shapes() == old(self).shapes() && final(self).history == old(
                self,
            ).history && final(self).annotations.next_id == old(self).annotations.next_id,
            created ==> (final(self).history.undo_view(), final(self).history.redo_view())
                == spec_push(
                old(self).history.undo_view(),
                old(self).history.max_depth as int,
                old(self).shapes(),
            ) && final(self).annotations.next_id == old(self).annotations.next_id + 1,
            created ==> ({
                let vs = old(self).draw.polygon_vertices@;
                let bbox = crate::geometry::spec_polygon_bbox(vs);
                final(self).shapes() =~= old(self).shapes().push(
                    AnnView {
                        id: old(self).annotations.next_id,
                        kind: crate::model::ShapeKind::Polygon,
                        x: bbox.x,
                        y: bbox.y,
                        width: crate::spec_clamp_coord(bbox.width as int),
                        height: crate::spec_clamp_coord(bbox.height as int),
                        rotation: 0,
                        vertices: vs,
                        class_id,
                        state: Lifecycle::Manual,
                        selected: false,
                    },
                )
            }),
    {
        let created = if self.draw.polygon_vertices.len() >= 3 {
            self.push_history();
            self.annotations.create_polygon(&self.draw.polygon_vertices, class_id)
        } else {
            false
        };
        self.draw.polygon_vertices = Vec::new();
        created
    }

    /// Abandon the polygon being drawn: the collected vertices are discarded
    /// and nothing is created.
    pub fn cancel_polygon(&mut self)
        requires
            old(self).wf(),
        ensures
            final(self).wf(),
            final(self).annotations == old(self).annotations,
            final(self).history == old(self).history,
            final(self).draw.polygon_vertices@.len() == 0,
    {
        self.draw.polygon_vertices = Vec::new();
    }

    /// Grab a resize handle: record the target, the handle, and the bounds
    /// at grab time, and push the pre-mutation snapshot once for the whole
    /// drag that follows.  A Rejected or out-of-range target is skipped and
    /// any previous grab is kept, as the original gesture handling does.
    pub fn start_resize(&mut self, index: usize, handle: ResizeHandle) -> (started: bool)
        requires
            old(self).wf(),
        ensures
            final(self).wf(),
            final(self).annotations == old(self).annotations,
            final(self).clipboard == old(self).clipboard,
            final(self).draw == old(self).draw,
            started == (index < old(self).shapes().len() && old(self).shapes()[index as int].state
                != Lifecycle::Rejected),
            started ==> (final(self).history.undo_view(), final(self).history.redo_view())
                == spec_push(
                old(self).history.undo_view(),
                old(self).history.max_depth as int,
                old(self).shapes(),
            ),
            !started ==> final(self).history == old(self).history,
            started ==> final(self).resize == Some(
                ResizeState {
                    index,
                    handle,
                    orig: Rect {
                        x: old(self).shapes()[index as int].x,
                        y: old(self).shapes()[index as int].y,
                        width: old(self).shapes()[index as int].width,
                        height: old(self).shapes()[index as int].height,
                    },
                },
            ),
            !started ==> final(self).resize == old(self).resize,
    {
        let grab = match self.annotations.get(index) {
            None => None,
            Some(ann) => {
                let live = match ann.state {
                    Lifecycle::Rejected => false,
                    _ => true,
                };
                if live {
                    proof {
                        assert(ann_wf(old(self).shapes()[index as int]));
                    }
                    Some(ann.bounds())
                } else {
                    None
                }
            },
        };
        match grab {
            Some(orig) => {
                self.push_history();
                self.resize = Some(ResizeState { index, handle, orig });
                true
            },
            None => false,
        }
    }

    /// Drag update for the grabbed handle: recompute the target's bounds from
    /// the bounds at grab time and the current cursor — never from the
    /// previous frame — and store them, with the implicit Pending -> Accepted
    /// transition.  Without a grab, or with a target that has since been
    /// rejected or removed, nothing happens.
    pub fn update_resize(&mut self, mx: i64, my: i64)
        requires
            old(self).wf(),
            coord_ok(mx),
            coord_ok(my),
        ensures
            final(self).wf(),
            final(self).history == old(self).history,
            final(self).resize == old(self).resize,
            final(self).shapes().len() == old(self).shapes().len(),
            match old(self).resize {
                None => final(self).shapes() == old(self).shapes(),
                Some(rs) => {
                    let before = old(self).shapes();
                    let target = spec_resize(rs.handle, rs.orig, mx as int, my as int);
                    let live = rs.index < before.len() && before[rs.index as int].state != Lifecycle::Rejected;
                    &&& live ==> final(self).shapes() =~= before.update(
                        rs.index as int,
                        crate::collection::resize_view(before[rs.index as int], target),
                    )
                    &&& !live ==> final(self).shapes() == before
                },
            },
    {
        match &self.resize {
            None => {},
            Some(rs) => {
                let target = resize_transform(rs.handle, &rs.orig, mx, my);
                let index = rs.index;
                self.annotations.set_bounds(index, target);
            },
        }
    }

    /// Click-selection with the given modifier: a plain click selects the
    /// clicked shape alone, a toggle click inverts it alone, and a range
    /// click selects the whole span from the highest selected index (or acts
    /// like a plain click with nothing selected).
    pub fn select_annotation(&mut self, index: usize, mode: SelectMode)
        requires
            old(self).wf(),
        ensures
            final(self).wf(),
            final(self).history == old(self).history,
            final(self).clipboard == old(self).clipboard,
            final(self).draw == old(self).draw,
            final(self).resize == old(self).resize,
            final(self).annotations.next_id == old(self).annotations.next_id,
            final(self).shapes().len() == old(self).shapes().len(),
            match mode {
                SelectMode::Toggle => {
                    &&& index < old(self).shapes().len() ==> final(self).shapes() =~= old(
                        self,
                    ).shapes().update(
                        index as int,
                        crate::collection::select_view(
                            old(self).shapes()[index as int],
                            !old(self).shapes()[index as int].selected,
                        ),
                    )
                    &&& index >= old(self).shapes().len() ==> final(self).shapes() == old(
                        self,
                    ).shapes()
                },
                SelectMode::Replace => forall|k: int|
                    0 <= k < old(self).shapes().len() ==> final(self).shapes()[k]
                        == crate::collection::select_view(
                        #[trigger] old(self).shapes()[k],
                        k == index as int,
                    ),
                SelectMode::Range => match AnnotationCollection::spec_last_selected(
                    old(self).shapes(),
                ) {
                    None => forall|k: int|
                        0 <= k < old(self).shapes().len() ==> final(self).shapes()[k]
                            == crate::collection::select_view(
                            #[trigger] old(self).shapes()[k],
                            k == index as int,
                        ),
                    Some(anchor) => {
                        let lo = if anchor <= index as int {
                            anchor
                        } else {
                            index as int
                        };
                        let hi = if anchor <= index as int {
                            index as int
                        } else {
                            anchor
                        };
                        forall|k: int|
                            0 <= k < old(self).shapes().len() ==> final(self).shapes()[k] == (
                            if lo <= k <= hi {
                                crate::collection::select_view(
                                    #[trigger] old(self).shapes()[k],
                                    true,
                                )
                            } else {
                                old(self).shapes()[k]
                            })
                    },
                },
            },
    {
        self.annotations.select(index, mode);
    }

    /// Select every shape.
    pub fn select_all(&mut self)
        requires
            old(self).wf(),
        ensures
            final(self).wf(),
            final(self).history == old(self).history,
            final(self).shapes().len() == old(self).shapes().len(),
            forall|k: int|
                0 <= k < old(self).shapes().len() ==> final(self).shapes()[k]
                    == crate::collection::select_view(#[trigger] old(self).shapes()[k], true),
    {
        self.annotations.select_all(true);
    }

    /// Deselect every shape.
    pub fn deselect_all(&mut self)
        requires
            old(self).wf(),
        ensures
            final(self).wf(),
            final(self).history == old(self).history,
            final(self).shapes().len() == old(self).shapes().len(),
            forall|k: int|
                0 <= k < old(self).shapes().len() ==> final(self).shapes()[k]
                    == crate::collection::select_view(#[trigger] old(self).shapes()[k], false),
    {
        self.annotations.select_all(false);
    }

    /// The shape the automatic box refinement would work on: the topmost live
    /// box under the click, with its current bounds.
    pub fn auto_resize_target(&self, px: i64, py: i64) -> (r: Option<(usize, Rect)>)
        requires
            self.wf(),
        ensures
            match r {
                Some(t) => crate::model::spec_topmost_box_hit(self.shapes(), px as int, py as int)
                    == Some(t.0 as int) && t.0 < self.shapes().len() && t.1 == Rect {
                    x: self.shapes()[t.0 as int].x,
                    y: self.shapes()[t.0 as int].y,
                    width: self.shapes()[t.0 as int].width,
                    height: self.shapes()[t.0 as int].height,
                },
                None => crate::model::spec_topmost_box_hit(self.shapes(), px as int, py as int)
                    is None,
            },
    {
        match crate::model::topmost_box_hit(&self.annotations.items, px, py) {
            None => None,
            Some(i) => {
                let ann = &self.annotations.items[i];
                Some((i, ann.bounds()))
            },
        }
    }

    /// Install the refined bounds the edge-detection engine produced for the
    /// shape at `index`, with the implicit Pending -> Accepted transition.
    /// The pre-mutation snapshot is pushed first, whether or not the target
    /// is still editable.
    pub fn apply_auto_resize(&mut self, index: usize, r: Rect)
        requires
            old(self).wf(),
        ensures
            final(self).wf(),
            final(self).clipboard == old(self).clipboard,
            final(self).draw == old(self).draw,
            final(self).resize == old(self).resize,
            (final(self).history.undo_view(), final(self).history.redo_view()) == spec_push(
                old(self).history.undo_view(),
                old(self).history.max_depth as int,
                old(self).shapes(),
            ),
            final(self).shapes().len() == old(self).shapes().len(),
            index < old(self).shapes().len() && old(self).shapes()[index as int].state
                != Lifecycle::Rejected ==> final(self).shapes() =~= old(self).shapes().update(
                index as int,
                crate::collection::resize_view(old(self).shapes()[index as int], r),
            ),
            index >= old(self).shapes().len() || old(self).shapes()[index as int].state
                == Lifecycle::Rejected ==> final(self).shapes() == old(self).shapes(),
    {
        self.push_history();
        self.annotations.set_bounds(index, r);
    }
}

} // verus!
