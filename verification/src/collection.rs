//! The live annotation collection: shape creation, soft deletion,
//! reclassification, selection, and copy/paste, together with the id
//! allocation that keeps every shape's id unique.

use vstd::prelude::*;

verus! {

use crate::{coord_ok, spec_clamp_coord, clamp_coord};
use crate::geometry::Rect;
use crate::model::{
    ann_wf, anns_view, snapshot_annotations, spec_next_id, next_id_from_annotations,
    spec_topmost_hit, topmost_hit, AnnView, Annotation, Lifecycle, ShapeKind, Vertex, CLASS_LIMIT,
    ID_LIMIT,
};

/// Offset applied to a pasted shape in both axes: 0.05 units.
pub const PASTE_OFFSET: i64 = 50;

/// Smallest width and height a drag gesture may turn into a box: 5 units.
pub const MIN_BOX_DIM: i64 = 5_000;

/// How a click modifies the selection.
#[derive(Clone, Copy, PartialEq, Eq, Structural, Debug)]
pub enum SelectMode {
    /// Deselect everything, then select the clicked shape alone.
    Replace,
    /// Invert the clicked shape's selection and touch nothing else.
    Toggle,
    /// Extend from the highest currently selected index to the clicked one.
    Range,
}

/// The shape with its lifecycle set to Rejected and its selection cleared:
/// the soft-delete tombstone.
pub open spec fn reject_view(a: AnnView) -> AnnView {
    AnnView { state: Lifecycle::Rejected, selected: false, ..a }
}

/// The shape reclassified: new class label, and an implicit
/// Pending -> Accepted transition.
pub open spec fn classify_view(a: AnnView, class_id: i64) -> AnnView {
    AnnView {
        class_id,
        state: if a.state == Lifecycle::Pending {
            Lifecycle::Accepted
        } else {
            a.state
        },
        ..a
    }
}

/// The shape with its selection flag set to `sel`.
pub open spec fn select_view(a: AnnView, sel: bool) -> AnnView {
    AnnView { selected: sel, ..a }
}

/// The shape as paste appends it: fresh id, nudged by `PASTE_OFFSET` in both
/// axes (clamped to the coordinate domain), deselected; kind, class,
/// lifecycle and vertices are kept.
pub open spec fn paste_view(a: AnnView, id: i64) -> AnnView {
    AnnView {
        id,
        x: spec_clamp_coord(a.x + PASTE_OFFSET),
        y: spec_clamp_coord(a.y + PASTE_OFFSET),
        selected: false,
        ..a
    }
}

/// The shape with new bounds from a resize or an automatic refinement, each
/// coordinate clamped into the domain, with the implicit Pending -> Accepted
/// transition of a mutating edit.
pub open spec fn resize_view(a: AnnView, r: Rect) -> AnnView {
    AnnView {
        x: spec_clamp_coord(r.x as int),
        y: spec_clamp_coord(r.y as int),
        width: spec_clamp_coord(r.width as int),
        height: spec_clamp_coord(r.height as int),
        state: if a.state == Lifecycle::Pending {
            Lifecycle::Accepted
        } else {
            a.state
        },
        ..a
    }
}

/// Uniqueness of ids and boundedness of every shape, relative to the id
/// counter `next_id`.
pub open spec fn coll_wf(items: Seq<AnnView>, next_id: i64) -> bool {
    &&& forall|i: int| 0 <= i < items.len() ==> ann_wf(#[trigger] items[i])
    &&& forall|i: int, j: int|
        #![trigger items[i].id, items[j].id]
        0 <= i < j < items.len() ==> items[i].id != items[j].id
    &&& forall|i: int| 0 <= i < items.len() ==> #[trigger] items[i].id < next_id
    &&& 0 < next_id <= ID_LIMIT
}

/// No two shapes in a well-formed collection ever share an id — Rejected
/// tombstones included, so soft deletion cannot free an id for reuse.
pub proof fn lemma_ids_unique(items: Seq<AnnView>, next_id: i64, i: int, j: int)
    requires
        coll_wf(items, next_id),
        0 <= i < items.len(),
        0 <= j < items.len(),
        i != j,
    ensures
        items[i].id != items[j].id,
{
}

/// The live collection of shapes for the displayed image, together with the
/// monotone counter that ids for new shapes are drawn from.
pub struct AnnotationCollection {
    pub items: Vec<Annotation>,
    pub next_id: i64,
}

impl AnnotationCollection {
    /// The collection as a sequence of mathematical shape values.
    pub open spec fn view_items(&self) -> Seq<AnnView> {
        anns_view(self.items@)
    }

    /// Collection invariant: every constructor establishes it and every
    /// operation preserves it.
    pub open spec fn wf(&self) -> bool {
        coll_wf(self.view_items(), self.next_id)
    }

    /// An empty collection whose id counter starts at `next_id_start`.
    pub fn new(next_id_start: i64) -> (r: AnnotationCollection)
        requires
            0 < next_id_start < ID_LIMIT,
        ensures
            r.wf(),
            r.view_items() =~= Seq::<AnnView>::empty(),
            r.next_id == next_id_start,
    {
        AnnotationCollection { items: Vec::new(), next_id: next_id_start }
    }

    pub fn len(&self) -> (n: usize)
        ensures
            n == self.view_items().len(),
    {
        self.items.len()
    }

    /// Read access for rendering and export.
    pub fn get(&self, index: usize) -> (r: Option<&Annotation>)
        ensures
            match r {
                Some(a) => index < self.view_items().len() && a@ == self.view_items()[index as int],
                None => index >= self.view_items().len(),
            },
    {
        if index < self.items.len() {
            Some(&self.items[index])
        } else {
            None
        }
    }

    /// A deep copy of the current shapes, for history snapshots.
    pub fn snapshot(&self) -> (r: Vec<Annotation>)
        ensures
            anns_view(r@) == self.view_items(),
    {
        snapshot_annotations(&self.items)
    }

    /// Replace the whole shape list (an undo/redo install).  The id counter
    /// is re-seeded above every id present so that ids stay unique.
    pub fn install(&mut self, items: Vec<Annotation>)
        requires
            old(self).wf(),
            forall|i: int| 0 <= i < items@.len() ==> ann_wf(#[trigger] items@[i]@),
            forall|i: int, j: int|
                #![trigger items@[i]@.id, items@[j]@.id]
                0 <= i < j < items@.len() ==> items@[i]@.id != items@[j]@.id,
        ensures
            final(self).wf(),
            final(self).view_items() == anns_view(items@),
            final(self).next_id == if spec_next_id(anns_view(items@), old(self).next_id) > old(
                self,
            ).next_id {
                spec_next_id(anns_view(items@), old(self).next_id)
            } else {
                old(self).next_id as int
            },
    {
        proof {
            assert forall|i: int| 0 <= i < items@.len() implies 0 <= #[trigger] items@[i]@.id
                < ID_LIMIT by {
                assert(ann_wf(items@[i]@));
            }
        }
        proof {
            assert forall|i: int| 0 <= i < anns_view(items@).len() implies #[trigger] anns_view(
                items@,
            )[i].id + 1 <= ID_LIMIT by {
                assert(anns_view(items@)[i] == items@[i]@);
                assert(ann_wf(items@[i]@));
            }
            crate::model::lemma_spec_next_id_bound(
                anns_view(items@),
                self.next_id,
                ID_LIMIT as int,
            );
        }
        let seeded = next_id_from_annotations(&items, self.next_id);
        let next_id = if seeded > self.next_id {
            seeded
        } else {
            self.next_id
        };
        proof {
            if items@.len() > 0 {
                assert(forall|i: int|
                    0 <= i < items@.len() ==> #[trigger] items@[i]@.id < seeded);
            }
            assert forall|i: int| 0 <= i < anns_view(items@).len() implies #[trigger] anns_view(
                items@,
            )[i].id < next_id by {
                assert(anns_view(items@)[i] == items@[i]@);
            }
        }
        self.items = items;
        self.next_id = next_id;
        proof {
            assert forall|i: int| 0 <= i < self.view_items().len() implies ann_wf(
                #[trigger] self.view_items()[i],
            ) by {
                assert(self.view_items()[i] == self.items@[i]@);
            }
            assert forall|i: int, j: int|
                #![trigger self.view_items()[i].id, self.view_items()[j].id]
                0 <= i < j < self.view_items().len() implies self.view_items()[i].id
                != self.view_items()[j].id by {
                assert(self.view_items()[i] == self.items@[i]@);
                assert(self.view_items()[j] == self.items@[j]@);
            }
        }
    }

    /// Create a box from a finished drag.  Boxes below the minimum footprint
    /// are discarded: the gesture is a no-op and `created` is false.
    pub fn create_box_from_drag(&mut self, rect: Rect, class_id: i64) -> (created: bool)
        requires
            old(self).wf(),
            -CLASS_LIMIT <= class_id <= CLASS_LIMIT,
            old(self).next_id < ID_LIMIT,
        ensures
            final(self).wf(),
            created == (rect.width >= MIN_BOX_DIM && rect.height >= MIN_BOX_DIM),
            !created ==> *final(self) == *old(self),
            created ==> final(self).view_items() =~= old(self).view_items().push(
                AnnView {
                    id: old(self).next_id,
                    kind: ShapeKind::Box,
                    x: spec_clamp_coord(rect.x as int),
                    y: spec_clamp_coord(rect.y as int),
                    width: spec_clamp_coord(rect.width as int),
                    height: spec_clamp_coord(rect.height as int),
                    rotation: 0,
                    vertices: Seq::empty(),
                    class_id,
                    state: Lifecycle::Manual,
                    selected: false,
                },
            ) && final(self).next_id == old(self).next_id + 1,
    {
        if rect.width >= MIN_BOX_DIM && rect.height >= MIN_BOX_DIM {
            let ann = Annotation {
                id: self.next_id,
                kind: ShapeKind::Box,
                x: clamp_coord(rect.x),
                y: clamp_coord(rect.y),
                width: clamp_coord(rect.width),
                height: clamp_coord(rect.height),
                rotation: 0,
                vertices: Vec::new(),
                class_id,
                state: Lifecycle::Manual,
                selected: false,
            };
            let ghost old_items = self.view_items();
            self.items.push(ann);
            self.next_id = self.next_id + 1;
            proof {
                assert(anns_view(self.items@) =~= old_items.push(ann@));
                self.lemma_push_preserves_wf(old(self), ann@);
            }
            true
        } else {
            false
        }
    }

    /// Create a point shape at the click location.  Points have no minimum
    /// size.
    pub fn create_point(&mut self, x: i64, y: i64, class_id: i64)
        requires
            old(self).wf(),
            -CLASS_LIMIT <= class_id <= CLASS_LIMIT,
            old(self).next_id < ID_LIMIT,
        ensures
            final(self).wf(),
            final(self).view_items() =~= old(self).view_items().push(
                AnnView {
                    id: old(self).next_id,
                    kind: ShapeKind::Point,
                    x: spec_clamp_coord(x as int),
                    y: spec_clamp_coord(y as int),
                    width: 0,
                    height: 0,
                    rotation: 0,
                    vertices: Seq::empty(),
                    class_id,
                    state: Lifecycle::Manual,
                    selected: false,
                },
            ),
            final(self).next_id == old(self).next_id + 1,
    {
        let ann = Annotation {
            id: self.next_id,
            kind: ShapeKind::Point,
            x: clamp_coord(x),
            y: clamp_coord(y),
            width: 0,
            height: 0,
            rotation: 0,
            vertices: Vec::new(),
            class_id,
            state: Lifecycle::Manual,
            selected: false,
        };
        let ghost old_items = self.view_items();
        self.items.push(ann);
        self.next_id = self.next_id + 1;
        proof {
            assert(anns_view(self.items@) =~= old_items.push(ann@));
            self.lemma_push_preserves_wf(old(self), ann@);
        }
    }

    /// Appending a fresh, bounded shape with id `old.next_id` and bumping the
    /// counter keeps the collection well-formed.
    proof fn lemma_push_preserves_wf(&self, prev: &AnnotationCollection, a: AnnView)
        requires
            prev.wf(),
            prev.next_id < ID_LIMIT,
            ann_wf(a),
            a.id == prev.next_id,
            self.view_items() =~= prev.view_items().push(a),
            self.next_id == prev.next_id + 1,
        ensures
            self.wf(),
    {
        let items = self.view_items();
        let n = prev.view_items().len();
        assert forall|i: int| 0 <= i < items.len() implies ann_wf(#[trigger] items[i]) by {
            if i < n {
                assert(items[i] == prev.view_items()[i]);
            }
        }
        assert forall|i: int, j: int|
            #![trigger items[i].id, items[j].id]
            0 <= i < j < items.len() implies items[i].id != items[j].id by {
            if j < n {
                assert(prev.view_items()[i].id != prev.view_items()[j].id);
            } else {
                assert(prev.view_items()[i].id < prev.next_id);
            }
        }
        assert forall|i: int| 0 <= i < items.len() implies #[trigger] items[i].id
            < self.next_id by {
            if i < n {
                assert(prev.view_items()[i].id < prev.next_id);
            }
        }
    }

    /// Soft-delete the shape at `index`: its lifecycle becomes Rejected and
    /// its selection is cleared; the collection's length never changes.  An
    /// out-of-range index is a no-op.
    pub fn delete_at_index(&mut self, index: usize)
        requires
            old(self).wf(),
        ensures
            final(self).wf(),
            final(self).next_id == old(self).next_id,
            final(self).view_items().len() == old(self).view_items().len(),
            index < old(self).view_items().len() ==> final(self).view_items() =~= old(
                self,
            ).view_items().update(index as int, reject_view(old(self).view_items()[index as int])),
            index >= old(self).view_items().len() ==> *final(self) == *old(self),
    {
        if index < self.items.len() {
            let ghost old_items = self.view_items();
            let mut ann = self.items[index].duplicate();
            ann.state = Lifecycle::Rejected;
            ann.selected = false;
            self.items.set(index, ann);
            proof {
                assert(self.view_items() =~= old_items.update(
                    index as int,
                    reject_view(old_items[index as int]),
                ));
                self.lemma_same_ids_preserves_wf(old(self));
            }
        }
    }

    /// Pointwise edits that keep every id and the counter keep the collection
    /// well-formed.
    proof fn lemma_same_ids_preserves_wf(&self, prev: &AnnotationCollection)
        requires
            prev.wf(),
            self.next_id == prev.next_id,
            self.view_items().len() == prev.view_items().len(),
            forall|i: int|
                0 <= i < self.view_items().len() ==> #[trigger] self.view_items()[i].id
                    == prev.view_items()[i].id,
            forall|i: int|
                0 <= i < self.view_items().len() ==> ann_wf(#[trigger] self.view_items()[i]),
        ensures
            self.wf(),
    {
        let items = self.view_items();
        assert forall|i: int, j: int|
            #![trigger items[i].id, items[j].id]
            0 <= i < j < items.len() implies items[i].id != items[j].id by {
            assert(prev.view_items()[i].id != prev.view_items()[j].id);
        }
        assert forall|i: int| 0 <= i < items.len() implies #[trigger] items[i].id
            < self.next_id by {
            assert(prev.view_items()[i].id < prev.next_id);
        }
    }

    /// Soft-delete the topmost live shape under the click, if any.  Returns
    /// whether a shape was deleted.
    pub fn delete_at_point(&mut self, px: i64, py: i64) -> (deleted: bool)
        requires
            old(self).wf(),
            coord_ok(px),
            coord_ok(py),
        ensures
            final(self).wf(),
            final(self).next_id == old(self).next_id,
            final(self).view_items().len() == old(self).view_items().len(),
            match spec_topmost_hit(old(self).view_items(), px as int, py as int) {
                Some(i) => deleted && final(self).view_items() =~= old(self).view_items().update(
                    i,
                    reject_view(old(self).view_items()[i]),
                ),
                None => !deleted && *final(self) == *old(self),
            },
    {
        proof {
            assert forall|i: int| 0 <= i < self.items@.len() implies ann_wf(
                #[trigger] self.items@[i]@,
            ) by {
                assert(self.view_items()[i] == self.items@[i]@);
            }
        }
        match topmost_hit(&self.items, px, py) {
            Some(i) => {
                proof {
                    crate::model::lemma_topmost_hit_is_hit(self.view_items(), px as int, py as int);
                }
                self.delete_at_index(i);
                true
            },
            None => false,
        }
    }

    /// Reclassify the topmost live shape under the click: set its class and
    /// move a Pending shape to Accepted.  Returns whether a shape changed.
    pub fn classify_at_point(&mut self, px: i64, py: i64, class_id: i64) -> (changed: bool)
        requires
            old(self).wf(),
            coord_ok(px),
            coord_ok(py),
            -CLASS_LIMIT <= class_id <= CLASS_LIMIT,
        ensures
            final(self).wf(),
            final(self).next_id == old(self).next_id,
            final(self).view_items().len() == old(self).view_items().len(),
            match spec_topmost_hit(old(self).view_items(), px as int, py as int) {
                Some(i) => changed && final(self).view_items() =~= old(self).view_items().update(
                    i,
                    classify_view(old(self).view_items()[i], class_id),
                ),
                None => !changed && *final(self) == *old(self),
            },
    {
        proof {
            assert forall|i: int| 0 <= i < self.items@.len() implies ann_wf(
                #[trigger] self.items@[i]@,
            ) by {
                assert(self.view_items()[i] == self.items@[i]@);
            }
        }
        match topmost_hit(&self.items, px, py) {
            Some(i) => {
                proof {
                    crate::model::lemma_topmost_hit_is_hit(self.view_items(), px as int, py as int);
                }
                let ghost old_items = self.view_items();
                let mut ann = self.items[i].duplicate();
                ann.class_id = class_id;
                ann.state = match ann.state {
                    Lifecycle::Pending => Lifecycle::Accepted,
                    s => s,
                };
                self.items.set(i, ann);
                proof {
                    assert(self.view_items() =~= old_items.update(
                        i as int,
                        classify_view(old_items[i as int], class_id),
                    ));
                    self.lemma_same_ids_preserves_wf(old(self));
                }
                true
            },
            None => false,
        }
    }

    /// Reclassify every selected, live shape; Pending targets move to
    /// Accepted.  Returns whether anything changed.
    pub fn classify_selected(&mut self, class_id: i64) -> (changed: bool)
        requires
            old(self).wf(),
            -CLASS_LIMIT <= class_id <= CLASS_LIMIT,
        ensures
            final(self).wf(),
            final(self).next_id == old(self).next_id,
            final(self).view_items().len() == old(self).view_items().len(),
            forall|k: int|
                0 <= k < old(self).view_items().len() ==> final(self).view_items()[k] == (
                if old(self).view_items()[k].selected && old(self).view_items()[k].state
                    != Lifecycle::Rejected {
                    classify_view(#[trigger] old(self).view_items()[k], class_id)
                } else {
                    old(self).view_items()[k]
                }),
            changed == exists|k: int|
                0 <= k < old(self).view_items().len() && #[trigger] old(
                    self,
                ).view_items()[k].selected && old(self).view_items()[k].state
                    != Lifecycle::Rejected,
    {
        let ghost old_items = self.view_items();
        let mut changed = false;
        let mut i: usize = 0;
        while i < self.items.len()
            invariant
                0 <= i <= self.items@.len(),
                -CLASS_LIMIT <= class_id <= CLASS_LIMIT,
                coll_wf(old_items, old(self).next_id),
                self.next_id == old(self).next_id,
                old_items == old(self).view_items(),
                self.view_items().len() == old_items.len(),
                forall|k: int|
                    i <= k < old_items.len() ==> #[trigger] self.view_items()[k] == old_items[k],
                forall|k: int|
                    0 <= k < i ==> #[trigger] self.view_items()[k] == (
                    if old_items[k].selected && old_items[k].state != Lifecycle::Rejected {
                        classify_view(old_items[k], class_id)
                    } else {
                        old_items[k]
                    }),
                changed == exists|k: int|
                    0 <= k < i && #[trigger] old_items[k].selected && old_items[k].state
                        != Lifecycle::Rejected,
            decreases self.items@.len() - i,
        {
            proof {
                assert(self.view_items()[i as int] == self.items@[i as int]@);
                assert(self.view_items()[i as int] == old_items[i as int]);
            }
            let live = match self.items[i].state {
                Lifecycle::Rejected => false,
                _ => true,
            };
            if self.items[i].selected && live {
                let ghost prev_view = self.view_items();
                let mut ann = self.items[i].duplicate();
                ann.class_id = class_id;
                ann.state = match ann.state {
                    Lifecycle::Pending => Lifecycle::Accepted,
                    s => s,
                };
                self.items.set(i, ann);
                changed = true;
                proof {
                    assert(self.view_items() =~= prev_view.update(i as int, ann@));
                    assert(old_items[i as int].selected && old_items[i as int].state
                        != Lifecycle::Rejected);
                }
            }
            i = i + 1;
        }
        proof {
            assert forall|k: int| 0 <= k < self.view_items().len() implies ann_wf(
                #[trigger] self.view_items()[k],
            ) && self.view_items()[k].id == old(self).view_items()[k].id by {
                assert(ann_wf(old(self).view_items()[k]));
            }
            self.lemma_same_ids_preserves_wf(old(self));
        }
        changed
    }

    /// Soft-delete every selected shape.  Returns how many shapes were
    /// deleted; the collection's length never changes.
    pub fn delete_selected(&mut self) -> (count: usize)
        requires
            old(self).wf(),
        ensures
            final(self).wf(),
            final(self).next_id == old(self).next_id,
            final(self).view_items().len() == old(self).view_items().len(),
            forall|k: int|
                0 <= k < old(self).view_items().len() ==> final(self).view_items()[k] == (
                if old(self).view_items()[k].selected {
                    reject_view(#[trigger] old(self).view_items()[k])
                } else {
                    old(self).view_items()[k]
                }),
            count == old(self).view_items().filter(|a: AnnView| a.selected).len(),
    {
        let ghost old_items = self.view_items();
        let ghost pred = |a: AnnView| a.selected;
        let mut count: usize = 0;
        let mut i: usize = 0;
        proof {
            reveal(Seq::filter);
        }
        while i < self.items.len()
            invariant
                0 <= i <= self.items@.len(),
                coll_wf(old_items, old(self).next_id),
                self.next_id == old(self).next_id,
                old_items == old(self).view_items(),
                self.view_items().len() == old_items.len(),
                pred == |a: AnnView| a.selected,
                forall|k: int|
                    i <= k < old_items.len() ==> #[trigger] self.view_items()[k] == old_items[k],
                forall|k: int|
                    0 <= k < i ==> #[trigger] self.view_items()[k] == (
                    if old_items[k].selected {
                        reject_view(old_items[k])
                    } else {
                        old_items[k]
                    }),
                count == old_items.take(i as int).filter(pred).len(),
                count <= i,
            decreases self.items@.len() - i,
        {
            proof {
                reveal(Seq::filter);
                assert(old_items.take(i + 1).drop_last() =~= old_items.take(i as int));
                assert(old_items.take(i + 1).last() == old_items[i as int]);
                old_items.take(i + 1).drop_last().lemma_filter_len(pred);
            }
            proof {
                assert(self.view_items()[i as int] == self.items@[i as int]@);
                assert(self.view_items()[i as int] == old_items[i as int]);
            }
            if self.items[i].selected {
                let ghost prev_view = self.view_items();
                let mut ann = self.items[i].duplicate();
                ann.state = Lifecycle::Rejected;
                ann.selected = false;
                self.items.set(i, ann);
                count = count + 1;
                proof {
                    assert(self.view_items() =~= prev_view.update(i as int, ann@));
                }
            }
            i = i + 1;
        }
        proof {
            assert(old_items.take(old_items.len() as int) =~= old_items);
            assert forall|k: int| 0 <= k < self.view_items().len() implies ann_wf(
                #[trigger] self.view_items()[k],
            ) && self.view_items()[k].id == old(self).view_items()[k].id by {
                assert(ann_wf(old(self).view_items()[k]));
            }
            self.lemma_same_ids_preserves_wf(old(self));
        }
        count
    }

    /// Set every shape's selection flag to `sel` (select-all/deselect-all).
    pub fn select_all(&mut self, sel: bool)
        requires
            old(self).wf(),
        ensures
            final(self).wf(),
            final(self).next_id == old(self).next_id,
            final(self).view_items().len() == old(self).view_items().len(),
            forall|k: int|
                0 <= k < old(self).view_items().len() ==> final(self).view_items()[k]
                    == select_view(#[trigger] old(self).view_items()[k], sel),
    {
        let ghost old_items = self.view_items();
        let mut i: usize = 0;
        while i < self.items.len()
            invariant
                0 <= i <= self.items@.len(),
                coll_wf(old_items, old(self).next_id),
                self.next_id == old(self).next_id,
                old_items == old(self).view_items(),
                self.view_items().len() == old_items.len(),
                forall|k: int|
                    i <= k < old_items.len() ==> #[trigger] self.view_items()[k] == old_items[k],
                forall|k: int|
                    0 <= k < i ==> #[trigger] self.view_items()[k] == select_view(
                        old_items[k],
                        sel,
                    ),
            decreases self.items@.len() - i,
        {
            proof {
                assert(self.view_items()[i as int] == self.items@[i as int]@);
                assert(self.view_items()[i as int] == old_items[i as int]);
            }
            let ghost prev_view = self.view_items();
            let mut ann = self.items[i].duplicate();
            ann.selected = sel;
            self.items.set(i, ann);
            proof {
                assert(self.view_items() =~= prev_view.update(i as int, ann@));
            }
            i = i + 1;
        }
        proof {
            assert forall|k: int| 0 <= k < self.view_items().len() implies ann_wf(
                #[trigger] self.view_items()[k],
            ) && self.view_items()[k].id == old(self).view_items()[k].id by {
                assert(ann_wf(old(self).view_items()[k]));
            }
            self.lemma_same_ids_preserves_wf(old(self));
        }
    }

    /// The highest currently selected index, if any: the anchor a
    /// range-extension click grows from.
    pub open spec fn spec_last_selected(items: Seq<AnnView>) -> Option<int>
        decreases items.len(),
    {
        if items.len() == 0 {
            None
        } else if items.last().selected {
            Some(items.len() - 1)
        } else {
            Self::spec_last_selected(items.drop_last())
        }
    }

    /// Click-selection with the three modifiers: a plain click selects the
    /// clicked shape alone; a toggle click inverts the clicked shape only; a
    /// range click selects the whole span between the highest selected index
    /// and the clicked one, or acts like a plain click when nothing is
    /// selected.  An out-of-range plain click deselects everything.
    pub fn select(&mut self, index: usize, mode: SelectMode)
        requires
            old(self).wf(),
        ensures
            final(self).wf(),
            final(self).next_id == old(self).next_id,
            final(self).view_items().len() == old(self).view_items().len(),
            match mode {
                SelectMode::Toggle => {
                    &&& index < old(self).view_items().len() ==> final(self).view_items() =~= old(
                        self,
                    ).view_items().update(
                        index as int,
                        select_view(
                            old(self).view_items()[index as int],
                            !old(self).view_items()[index as int].selected,
                        ),
                    )
                    &&& index >= old(self).view_items().len() ==> *final(self) == *old(self)
                },
                SelectMode::Replace => forall|k: int|
                    0 <= k < old(self).view_items().len() ==> final(self).view_items()[k]
                        == select_view(#[trigger] old(self).view_items()[k], k == index as int),
                SelectMode::Range => match Self::spec_last_selected(old(self).view_items()) {
                    None => forall|k: int|
                        0 <= k < old(self).view_items().len() ==> final(self).view_items()[k]
                            == select_view(#[trigger] old(self).view_items()[k], k == index as int),
                    Some(anchor) => {
                        let lo = if anchor <= index as int {
                            anchor
                        } else {
                            index as int
                        };
                        let hi = if anchor <= index as int {
                            index as int
                        } else {
                            anchor
                        };
                        forall|k: int|
                            0 <= k < old(self).view_items().len() ==> final(self).view_items()[k]
                                == (if lo <= k <= hi {
                                select_view(#[trigger] old(self).view_items()[k], true)
                            } else {
                                old(self).view_items()[k]
                            })
                    },
                },
            },
    {
        match mode {
            SelectMode::Toggle => {
                if index < self.items.len() {
                    let ghost old_items = self.view_items();
                    let mut ann = self.items[index].duplicate();
                    ann.selected = !ann.selected;
                    self.items.set(index, ann);
                    proof {
                        assert(self.view_items() =~= old_items.update(
                            index as int,
                            select_view(old_items[index as int], !old_items[index as int].selected),
                        ));
                        assert forall|k: int| 0 <= k < self.view_items().len() implies ann_wf(
                #[trigger] self.view_items()[k],
            ) && self.view_items()[k].id == old(self).view_items()[k].id by {
                assert(ann_wf(old(self).view_items()[k]));
            }
            self.lemma_same_ids_preserves_wf(old(self));
                    }
                }
            },
            SelectMode::Replace => {
                self.select_only(index);
            },
            SelectMode::Range => {
                match self.last_selected() {
                    None => {
                        self.select_only(index);
                    },
                    Some(anchor) => {
                        let lo = if anchor <= index {
                            anchor
                        } else {
                            index
                        };
                        let hi = if anchor <= index {
                            index
                        } else {
                            anchor
                        };
                        self.select_span(lo, hi);
                    },
                }
            },
        }
    }

    /// Select the shape at `index` and deselect every other shape.
    fn select_only(&mut self, index: usize)
        requires
            old(self).wf(),
        ensures
            final(self).wf(),
            final(self).next_id == old(self).next_id,
            final(self).view_items().len() == old(self).view_items().len(),
            forall|k: int|
                0 <= k < old(self).view_items().len() ==> final(self).view_items()[k]
                    == select_view(#[trigger] old(self).view_items()[k], k == index as int),
    {
        let ghost old_items = self.view_items();
        let mut i: usize = 0;
        while i < self.items.len()
            invariant
                0 <= i <= self.items@.len(),
                coll_wf(old_items, old(self).next_id),
                self.next_id == old(self).next_id,
                old_items == old(self).view_items(),
                self.view_items().len() == old_items.len(),
                forall|k: int|
                    i <= k < old_items.len() ==> #[trigger] self.view_items()[k] == old_items[k],
                forall|k: int|
                    0 <= k < i ==> #[trigger] self.view_items()[k] == select_view(
                        old_items[k],
                        k == index as int,
                    ),
            decreases self.items@.len() - i,
        {
            proof {
                assert(self.view_items()[i as int] == self.items@[i as int]@);
                assert(self.view_items()[i as int] == old_items[i as int]);
            }
            let ghost prev_view = self.view_items();
            let mut ann = self.items[i].duplicate();
            ann.selected = i == index;
            self.items.set(i, ann);
            proof {
                assert(self.view_items() =~= prev_view.update(i as int, ann@));
            }
            i = i + 1;
        }
        proof {
            assert forall|k: int| 0 <= k < self.view_items().len() implies ann_wf(
                #[trigger] self.view_items()[k],
            ) && self.view_items()[k].id == old(self).view_items()[k].id by {
                assert(ann_wf(old(self).view_items()[k]));
            }
            self.lemma_same_ids_preserves_wf(old(self));
        }
    }

    /// Select every shape whose index lies in `[lo, hi]`, leaving the rest
    /// unchanged.
    fn select_span(&mut self, lo: usize, hi: usize)
        requires
            old(self).wf(),
            lo <= hi,
        ensures
            final(self).wf(),
            final(self).next_id == old(self).next_id,
            final(self).view_items().len() == old(self).view_items().len(),
            forall|k: int|
                0 <= k < old(self).view_items().len() ==> final(self).view_items()[k] == (
                if lo <= k <= hi {
                    select_view(#[trigger] old(self).view_items()[k], true)
                } else {
                    old(self).view_items()[k]
                }),
    {
        let ghost old_items = self.view_items();
        let mut i: usize = lo;
        while i < self.items.len() && i <= hi
            invariant
                lo <= i,
                i <= hi + 1,
                coll_wf(old_items, old(self).next_id),
                self.next_id == old(self).next_id,
                old_items == old(self).view_items(),
                self.view_items().len() == old_items.len(),
                forall|k: int|
                    0 <= k < old_items.len() && !(lo <= k < i) ==> #[trigger] self.view_items()[k]
                        == old_items[k],
                forall|k: int|
                    0 <= k < old_items.len() && lo <= k < i ==> #[trigger] self.view_items()[k]
                        == select_view(old_items[k], true),
            decreases self.items@.len() - i,
        {
            proof {
                assert(self.view_items()[i as int] == self.items@[i as int]@);
            }
            let ghost prev_view = self.view_items();
            let mut ann = self.items[i].duplicate();
            ann.selected = true;
            self.items.set(i, ann);
            proof {
                assert(self.view_items() =~= prev_view.update(i as int, ann@));
            }
            i = i + 1;
        }
        proof {
            assert forall|k: int| 0 <= k < self.view_items().len() implies ann_wf(
                #[trigger] self.view_items()[k],
            ) && self.view_items()[k].id == old(self).view_items()[k].id by {
                assert(ann_wf(old(self).view_items()[k]));
            }
            self.lemma_same_ids_preserves_wf(old(self));
        }
    }

    /// The highest selected index, scanned from the end of the list.
    fn last_selected(&self) -> (r: Option<usize>)
        ensures
            match r {
                Some(i) => i < self.view_items().len() && Self::spec_last_selected(
                    self.view_items(),
                ) == Some(i as int),
                None => Self::spec_last_selected(self.view_items()) is None,
            },
    {
        let ghost avs = self.view_items();
        proof {
            assert(avs.take(self.items@.len() as int) =~= avs);
        }
        let mut i: usize = self.items.len();
        while i > 0
            invariant
                0 <= i <= self.items@.len(),
                avs == self.view_items(),
                avs.len() == self.items@.len(),
                Self::spec_last_selected(avs) == Self::spec_last_selected(avs.take(i as int)),
            decreases i,
        {
            i = i - 1;
            proof {
                assert(avs.take(i + 1).last() == avs[i as int]);
                assert(avs.take(i + 1).drop_last() =~= avs.take(i as int));
            }
            if self.items[i].selected {
                return Some(i);
            }
        }
        None
    }

    /// Deep copies of every selected shape, in list order: the clipboard
    /// contents a copy gesture produces.
    pub fn copy_selected(&self) -> (r: Vec<Annotation>)
        requires
            self.wf(),
        ensures
            anns_view(r@) == self.view_items().filter(|a: AnnView| a.selected),
            forall|k: int| 0 <= k < r@.len() ==> ann_wf(#[trigger] r@[k]@),
    {
        let ghost avs = self.view_items();
        let ghost pred = |a: AnnView| a.selected;
        let mut out: Vec<Annotation> = Vec::new();
        let mut i: usize = 0;
        proof {
            reveal(Seq::filter);
        }
        while i < self.items.len()
            invariant
                0 <= i <= self.items@.len(),
                coll_wf(avs, self.next_id),
                avs == self.view_items(),
                avs.len() == self.items@.len(),
                pred == |a: AnnView| a.selected,
                anns_view(out@) == avs.take(i as int).filter(pred),
                forall|k: int| 0 <= k < out@.len() ==> ann_wf(#[trigger] out@[k]@),
            decreases self.items@.len() - i,
        {
            proof {
                reveal(Seq::filter);
                assert(avs.take(i + 1).drop_last() =~= avs.take(i as int));
                assert(avs.take(i + 1).last() == avs[i as int]);
            }
            if self.items[i].selected {
                let ghost prev = anns_view(out@);
                out.push(self.items[i].duplicate());
                proof {
                    assert(anns_view(out@) =~= prev.push(avs[i as int]));
                }
            }
            i = i + 1;
        }
        proof {
            assert(avs.take(avs.len() as int) =~= avs);
        }
        out
    }

    /// Paste the clipboard: each copied shape is appended as a clone with a
    /// freshly allocated id (destination max id plus one, counting up), its
    /// position nudged by `PASTE_OFFSET` in both axes, and its selection
    /// cleared.  Lifecycle states are never touched.  An empty clipboard is a
    /// no-op.
    pub fn paste(&mut self, clipboard: &Vec<Annotation>) -> (pasted: usize)
        requires
            old(self).wf(),
            forall|k: int| 0 <= k < clipboard@.len() ==> ann_wf(#[trigger] clipboard@[k]@),
            old(self).next_id + clipboard@.len() <= ID_LIMIT,
        ensures
            final(self).wf(),
            pasted == clipboard@.len(),
            clipboard@.len() == 0 ==> *final(self) == *old(self),
            clipboard@.len() > 0 ==> {
                let start = spec_next_id(old(self).view_items(), 1);
                &&& final(self).view_items() =~= old(self).view_items() + Seq::new(
                    clipboard@.len(),
                    |k: int| paste_view(clipboard@[k]@, (start + k) as i64),
                )
                &&& final(self).next_id == if start + clipboard@.len() > old(self).next_id {
                    start + clipboard@.len()
                } else {
                    old(self).next_id as int
                }
            },
    {
        if clipboard.len() == 0 {
            return 0;
        }
        proof {
            assert forall|i: int| 0 <= i < self.items@.len() implies 0 <= #[trigger] self.items@[i]@.id
                < ID_LIMIT by {
                assert(ann_wf(self.view_items()[i]));
                assert(self.view_items()[i] == self.items@[i]@);
            }
        }
        let start = next_id_from_annotations(&self.items, 1);
        proof {
            assert forall|i: int| 0 <= i < self.view_items().len() implies #[trigger] self.view_items()[i].id
                + 1 <= self.next_id by {
                assert(self.view_items()[i].id < self.next_id);
            }
            crate::model::lemma_spec_next_id_bound(
                self.view_items(),
                1,
                self.next_id as int,
            );
        }
        let ghost old_items = self.view_items();
        let ghost n = clipboard@.len();
        let mut k: usize = 0;
        while k < clipboard.len()
            invariant
                0 <= k <= clipboard@.len(),
                coll_wf(old_items, old(self).next_id),
                forall|j: int| 0 <= j < clipboard@.len() ==> ann_wf(#[trigger] clipboard@[j]@),
                old(self).next_id + clipboard@.len() <= ID_LIMIT,
                old_items == old(self).view_items(),
                self.next_id == old(self).next_id,
                start == spec_next_id(old_items, 1),
                0 < start <= old(self).next_id,
                old_items.len() > 0 ==> forall|j: int|
                    0 <= j < old_items.len() ==> #[trigger] old_items[j].id < start,
                self.view_items() =~= old_items + Seq::new(
                    k as nat,
                    |j: int| paste_view(clipboard@[j]@, (start + j) as i64),
                ),
            decreases clipboard@.len() - k,
        {
            let ghost before = self.view_items();
            let mut ann = clipboard[k].duplicate();
            ann.id = start + k as i64;
            proof {
                assert(ann_wf(clipboard@[k as int]@));
            }
            ann.x = clamp_coord(ann.x + PASTE_OFFSET);
            ann.y = clamp_coord(ann.y + PASTE_OFFSET);
            ann.selected = false;
            proof {
                assert(ann@ == paste_view(clipboard@[k as int]@, (start + k as int) as i64));
            }
            self.items.push(ann);
            proof {
                assert(self.view_items() =~= before.push(ann@));
                assert(self.view_items() =~= old_items + Seq::new(
                    (k + 1) as nat,
                    |j: int| paste_view(clipboard@[j]@, (start + j) as i64),
                ));
            }
            k = k + 1;
        }
        let alloc_end = start + clipboard.len() as i64;
        if alloc_end > self.next_id {
            self.next_id = alloc_end;
        }
        proof {
            let items = self.view_items();
            let m = old_items.len();
            assert forall|i: int| 0 <= i < items.len() implies ann_wf(#[trigger] items[i]) by {
                if i < m {
                    assert(items[i] == old_items[i]);
                } else {
                    assert(items[i] == paste_view(clipboard@[i - m]@, (start + i - m) as i64));
                    assert(ann_wf(clipboard@[i - m]@));
                }
            }
            assert forall|i: int, j: int|
                #![trigger items[i].id, items[j].id]
                0 <= i < j < items.len() implies items[i].id != items[j].id by {
                if j < m {
                    assert(old_items[i].id != old_items[j].id);
                } else if i < m {
                    assert(old_items[i].id < start);
                    assert(items[j].id == start + (j - m));
                } else {
                    assert(items[i].id == start + (i - m));
                    assert(items[j].id == start + (j - m));
                }
            }
            assert forall|i: int| 0 <= i < items.len() implies #[trigger] items[i].id
                < self.next_id by {
                if i < m {
                    assert(old_items[i].id < old(self).next_id);
                } else {
                    assert(items[i].id == start + (i - m));
                }
            }
        }
        clipboard.len()
    }

    /// Give the shape at `index` new bounds, from a drag of a resize handle
    /// or from the automatic refinement, clamped into the coordinate domain;
    /// a Pending target moves to Accepted.  A Rejected target, or an
    /// out-of-range index, is left untouched.
    pub fn set_bounds(&mut self, index: usize, r: Rect)
        requires
            old(self).wf(),
        ensures
            final(self).wf(),
            final(self).next_id == old(self).next_id,
            final(self).view_items().len() == old(self).view_items().len(),
            index < old(self).view_items().len() && old(self).view_items()[index as int].state
                != Lifecycle::Rejected ==> final(self).view_items() =~= old(
                self,
            ).view_items().update(
                index as int,
                resize_view(old(self).view_items()[index as int], r),
            ),
            index >= old(self).view_items().len() || old(self).view_items()[index as int].state
                == Lifecycle::Rejected ==> *final(self) == *old(self),
    {
        if index < self.items.len() {
            let live = match self.items[index].state {
                Lifecycle::Rejected => false,
                _ => true,
            };
            if live {
                let ghost old_items = self.view_items();
                let mut ann = self.items[index].duplicate();
                ann.x = clamp_coord(r.x);
                ann.y = clamp_coord(r.y);
                ann.width = clamp_coord(r.width);
                ann.height = clamp_coord(r.height);
                ann.state = match ann.state {
                    Lifecycle::Pending => Lifecycle::Accepted,
                    s => s,
                };
                self.items.set(index, ann);
                proof {
                    assert(self.view_items() =~= old_items.update(
                        index as int,
                        resize_view(old_items[index as int], r),
                    ));
                    assert forall|k: int| 0 <= k < self.view_items().len() implies ann_wf(
                #[trigger] self.view_items()[k],
            ) && self.view_items()[k].id == old(self).view_items()[k].id by {
                assert(ann_wf(old(self).view_items()[k]));
            }
            self.lemma_same_ids_preserves_wf(old(self));
                }
            }
        }
    }

    /// Commit a finished polygon gesture: with three or more vertices a
    /// Polygon shape is appended whose rectangle fields cache the outline's
    /// bounding box; with fewer the gesture is discarded.
    pub fn create_polygon(&mut self, vertices: &Vec<Vertex>, class_id: i64) -> (created: bool)
        requires
            old(self).wf(),
            -CLASS_LIMIT <= class_id <= CLASS_LIMIT,
            old(self).next_id < ID_LIMIT,
            forall|i: int|
                0 <= i < vertices@.len() ==> coord_ok(#[trigger] vertices@[i].x) && coord_ok(
                    vertices@[i].y,
                ),
        ensures
            final(self).wf(),
            created == (vertices@.len() >= 3),
            !created ==> *final(self) == *old(self),
            created ==> {
                let bbox = crate::geometry::spec_polygon_bbox(vertices@);
                &&& final(self).view_items() =~= old(self).view_items().push(
                    AnnView {
                        id: old(self).next_id,
                        kind: ShapeKind::Polygon,
                        x: bbox.x,
                        y: bbox.y,
                        width: spec_clamp_coord(bbox.width as int),
                        height: spec_clamp_coord(bbox.height as int),
                        rotation: 0,
                        vertices: vertices@,
                        class_id,
                        state: Lifecycle::Manual,
                        selected: false,
                    },
                )
                &&& final(self).next_id == old(self).next_id + 1
            },
    {
        if vertices.len() >= 3 {
            let bbox = crate::geometry::polygon_bbox(vertices);
            let ann = Annotation {
                id: self.next_id,
                kind: ShapeKind::Polygon,
                x: bbox.x,
                y: bbox.y,
                width: clamp_coord(bbox.width),
                height: clamp_coord(bbox.height),
                rotation: 0,
                vertices: crate::model::duplicate_vertex_list(vertices),
                class_id,
                state: Lifecycle::Manual,
                selected: false,
            };
            let ghost old_items = self.view_items();
            self.items.push(ann);
            self.next_id = self.next_id + 1;
            proof {
                assert(anns_view(self.items@) =~= old_items.push(ann@));
                self.lemma_push_preserves_wf(old(self), ann@);
            }
            true
        } else {
            false
        }
    }
}

} // verus!
