//! Bounded two-stack undo/redo history over whole-collection snapshots.
//!
//! Every mutating edit pushes the pre-mutation snapshot; pushing clears the
//! redo lineage; undo and redo move snapshots between the two stacks and hand
//! the caller the collection to install.

use vstd::prelude::*;

verus! {

use crate::model::{anns_view, AnnView, Annotation};

/// A snapshot as mathematics: the shape list it holds.
pub type SnapView = Seq<AnnView>;

/// The view of a stack of snapshots.
pub open spec fn stack_view(s: Seq<Vec<Annotation>>) -> Seq<SnapView> {
    s.map_values(|v: Vec<Annotation>| anns_view(v@))
}

/// What a push does to the two stacks: the snapshot goes on top of the undo
/// stack, evicting the oldest entry when the stack is full, and the whole
/// redo lineage is discarded.
pub open spec fn spec_push(
    undo: Seq<SnapView>,
    cap: int,
    snap: SnapView,
) -> (Seq<SnapView>, Seq<SnapView>) {
    let trimmed = if undo.len() >= cap {
        undo.subrange(1, undo.len() as int)
    } else {
        undo
    };
    (trimmed.push(snap), Seq::empty())
}

/// What an undo does: with an empty undo stack, nothing; otherwise the top of
/// the undo stack is handed back for installation and the live collection
/// `current` is parked on the redo stack.
pub open spec fn spec_undo(undo: Seq<SnapView>, redo: Seq<SnapView>, current: SnapView) -> (
    Seq<SnapView>,
    Seq<SnapView>,
    Option<SnapView>,
) {
    if undo.len() == 0 {
        (undo, redo, None::<SnapView>)
    } else {
        (undo.drop_last(), redo.push(current), Some(undo.last()))
    }
}

/// The mirror image of [`spec_undo`].
pub open spec fn spec_redo(undo: Seq<SnapView>, redo: Seq<SnapView>, current: SnapView) -> (
    Seq<SnapView>,
    Seq<SnapView>,
    Option<SnapView>,
) {
    if redo.len() == 0 {
        (undo, redo, None::<SnapView>)
    } else {
        (undo.push(current), redo.drop_last(), Some(redo.last()))
    }
}

/// Undo followed by redo is the identity: if undoing from live collection
/// `current` hands back `prev`, then redoing from `prev` hands back exactly
/// `current` and returns both stacks to their pre-undo state.
pub proof fn lemma_undo_then_redo(undo: Seq<SnapView>, redo: Seq<SnapView>, current: SnapView)
    requires
        undo.len() > 0,
    ensures
        ({
            let (u1, r1, popped) = spec_undo(undo, redo, current);
            let (u2, r2, restored) = spec_redo(u1, r1, popped->0);
            &&& popped == Some(undo.last())
            &&& restored == Some(current)
            &&& u2 =~= undo
            &&& r2 =~= redo
        }),
{
}

/// Redo followed by undo is the identity, stated symmetrically.
pub proof fn lemma_redo_then_undo(undo: Seq<SnapView>, redo: Seq<SnapView>, current: SnapView)
    requires
        redo.len() > 0,
    ensures
        ({
            let (u1, r1, popped) = spec_redo(undo, redo, current);
            let (u2, r2, restored) = spec_undo(u1, r1, popped->0);
            &&& popped == Some(redo.last())
            &&& restored == Some(current)
            &&& u2 =~= undo
            &&& r2 =~= redo
        }),
{
}

/// Any push discards the whole redo lineage: immediately after it, a redo
/// returns nothing and moves nothing.
pub proof fn lemma_push_discards_redo(
    undo: Seq<SnapView>,
    cap: int,
    snap: SnapView,
    current: SnapView,
)
    ensures
        ({
            let (u1, r1) = spec_push(undo, cap, snap);
            &&& r1 =~= Seq::<SnapView>::empty()
            &&& spec_redo(u1, r1, current) == (u1, r1, None::<SnapView>)
        }),
{
}

/// The bounded history: two stacks of full snapshots, never sharing a shape
/// with each other or with the live collection.
pub struct UndoHistory {
    pub undo_stack: Vec<Vec<Annotation>>,
    pub redo_stack: Vec<Vec<Annotation>>,
    pub max_depth: usize,
}

impl UndoHistory {
    pub open spec fn undo_view(&self) -> Seq<SnapView> {
        stack_view(self.undo_stack@)
    }

    pub open spec fn redo_view(&self) -> Seq<SnapView> {
        stack_view(self.redo_stack@)
    }

    /// The two stacks together never hold more than `max_depth` snapshots, so
    /// each stack alone is bounded by it too.
    pub open spec fn wf(&self) -> bool {
        &&& self.undo_stack@.len() + self.redo_stack@.len() <= self.max_depth
        &&& self.max_depth >= 1
    }

    /// An empty history with the given depth bound.
    pub fn new(max_depth: usize) -> (r: UndoHistory)
        requires
            max_depth >= 1,
        ensures
            r.wf(),
            r.undo_view() =~= Seq::<SnapView>::empty(),
            r.redo_view() =~= Seq::<SnapView>::empty(),
            r.max_depth == max_depth,
    {
        UndoHistory { undo_stack: Vec::new(), redo_stack: Vec::new(), max_depth }
    }

    pub fn undo_depth(&self) -> (n: usize)
        ensures
            n == self.undo_view().len(),
    {
        self.undo_stack.len()
    }

    pub fn redo_depth(&self) -> (n: usize)
        ensures
            n == self.redo_view().len(),
    {
        self.redo_stack.len()
    }

    /// Record the pre-mutation snapshot.  The oldest entry is evicted once
    /// the stack is full, and the redo lineage is invalidated.
    pub fn push(&mut self, snapshot: Vec<Annotation>)
        requires
            old(self).wf(),
        ensures
            final(self).wf(),
            final(self).max_depth == old(self).max_depth,
            (final(self).undo_view(), final(self).redo_view()) == spec_push(
                old(self).undo_view(),
                old(self).max_depth as int,
                anns_view(snapshot@),
            ),
    {
        let ghost old_undo = self.undo_view();
        if self.undo_stack.len() >= self.max_depth {
            let _evicted = self.undo_stack.remove(0);
        }
        self.undo_stack.push(snapshot);
        self.redo_stack = Vec::new();
        proof {
            let (u, r) = spec_push(old_undo, old(self).max_depth as int, anns_view(snapshot@));
            if old_undo.len() >= old(self).max_depth {
                assert(self.undo_view() =~= old_undo.subrange(1, old_undo.len() as int).push(
                    anns_view(snapshot@),
                ));
            } else {
                assert(self.undo_view() =~= old_undo.push(anns_view(snapshot@)));
            }
            assert(self.undo_view() =~= u);
            assert(self.redo_view() =~= r);
        }
    }

    /// Step back: hand out the most recent snapshot and park the live
    /// collection on the redo stack.  With nothing to undo, a no-op that
    /// returns nothing.
    pub fn undo(&mut self, current: Vec<Annotation>) -> (r: Option<Vec<Annotation>>)
        requires
            old(self).wf(),
        ensures
            final(self).wf(),
            final(self).max_depth == old(self).max_depth,
            old(self).undo_view().len() == 0 ==> r is None && final(self).undo_view() == old(
                self,
            ).undo_view() && final(self).redo_view() == old(self).redo_view(),
            old(self).undo_view().len() > 0 ==> r is Some && (
            final(self).undo_view(),
            final(self).redo_view(),
            Some(anns_view(r->0@)),
            ) == spec_undo(old(self).undo_view(), old(self).redo_view(), anns_view(current@)),
    {
        let ghost old_undo = self.undo_view();
        let ghost old_redo = self.redo_view();
        match self.undo_stack.pop() {
            None => None,
            Some(popped) => {
                self.redo_stack.push(current);
                proof {
                    assert(self.undo_view() =~= old_undo.drop_last());
                    assert(self.redo_view() =~= old_redo.push(anns_view(current@)));
                    assert(anns_view(popped@) == old_undo.last());
                }
                Some(popped)
            },
        }
    }

    /// Step forward again: the mirror image of [`UndoHistory::undo`].
    pub fn redo(&mut self, current: Vec<Annotation>) -> (r: Option<Vec<Annotation>>)
        requires
            old(self).wf(),
        ensures
            final(self).wf(),
            final(self).max_depth == old(self).max_depth,
            old(self).redo_view().len() == 0 ==> r is None && final(self).undo_view() == old(
                self,
            ).undo_view() && final(self).redo_view() == old(self).redo_view(),
            old(self).redo_view().len() > 0 ==> r is Some && (
            final(self).undo_view(),
            final(self).redo_view(),
            Some(anns_view(r->0@)),
            ) == spec_redo(old(self).undo_view(), old(self).redo_view(), anns_view(current@)),
    {
        let ghost old_undo = self.undo_view();
        let ghost old_redo = self.redo_view();
        match self.redo_stack.pop() {
            None => None,
            Some(popped) => {
                self.undo_stack.push(current);
                proof {
                    assert(self.redo_view() =~= old_redo.drop_last());
                    assert(self.undo_view() =~= old_undo.push(anns_view(current@)));
                    assert(anns_view(popped@) == old_redo.last());
                }
                Some(popped)
            },
        }
    }
}

} // verus!
