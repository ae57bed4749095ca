//! The per-dataset session: entries, per-image annotation and view caches,
//! the global-view reuse heuristic, navigation index arithmetic, and the
//! full-fidelity stored-annotation records.

use vstd::prelude::*;

verus! {

use crate::{coord_ok, spec_clamp_coord, clamp_coord, COORD_LIMIT};
use crate::codec::{fmt_vertices, parse_vertices, vertices_str};
use crate::model::{
    ann_wf, anns_view, snapshot_annotations, AnnView, Annotation, Lifecycle, ShapeKind, Vertex,
    CLASS_LIMIT, ID_LIMIT,
};

/// Tolerance for treating two image sizes as the same when reusing the
/// global view: 2 units per axis.
pub const SIZE_TOLERANCE: i64 = 2_000;

/// Smallest zoom a captured view may carry: 0.1.
pub const MIN_ZOOM: i64 = 100;

/// Pan offset and zoom factor of the displayed image.
#[derive(Clone, Copy, PartialEq, Eq, Structural, Debug)]
pub struct ViewState {
    pub pan_x: i64,
    pub pan_y: i64,
    pub zoom: i64,
}

/// Capture a view from raw values, flooring the zoom at `MIN_ZOOM` as the
/// capture path does.
pub fn get_view_state(pan_x: i64, pan_y: i64, zoom: i64) -> (r: ViewState)
    ensures
        r.pan_x == pan_x,
        r.pan_y == pan_y,
        r.zoom == if zoom >= MIN_ZOOM {
            zoom
        } else {
            MIN_ZOOM
        },
        r.zoom > 0,
{
    let z = if zoom >= MIN_ZOOM {
        zoom
    } else {
        MIN_ZOOM
    };
    ViewState { pan_x, pan_y, zoom: z }
}

/// The view as it is applied to the display: an invalid (non-positive) zoom
/// normalizes to 1.0.
pub fn apply_view_state(vs: &ViewState) -> (r: ViewState)
    ensures
        r.pan_x == vs.pan_x,
        r.pan_y == vs.pan_y,
        r.zoom == if vs.zoom <= 0 {
            1000int
        } else {
            vs.zoom as int
        },
        r.zoom > 0,
{
    let z = if vs.zoom <= 0 {
        1000
    } else {
        vs.zoom
    };
    ViewState { pan_x: vs.pan_x, pan_y: vs.pan_y, zoom: z }
}

/// Whether two sizes agree within the tolerance on both axes.
pub open spec fn spec_sizes_close(a: (i64, i64), b: (i64, i64), tolerance: i64) -> bool {
    -(tolerance as int) <= a.0 - b.0 <= tolerance && -(tolerance as int) <= a.1 - b.1 <= tolerance
}

/// Exact form of the size comparison used by the global-view heuristic.
pub fn sizes_close(a: (i64, i64), b: (i64, i64), tolerance: i64) -> (r: bool)
    requires
        coord_ok(a.0),
        coord_ok(a.1),
        coord_ok(b.0),
        coord_ok(b.1),
        0 <= tolerance,
    ensures
        r == spec_sizes_close(a, b, tolerance),
{
    let dx = a.0 - b.0;
    let dy = a.1 - b.1;
    -tolerance <= dx && dx <= tolerance && -tolerance <= dy && dy <= tolerance
}

/// One image of the dataset with its optional label file path.
pub struct DatasetEntry {
    pub image_path: String,
    pub labels_path: Option<String>,
}

/// The dataset session: entries, the cursor, and the three parallel cache
/// arrays, plus the global view and the size it was captured at.
pub struct DatasetState {
    pub entries: Vec<DatasetEntry>,
    pub current_index: usize,
    pub stored_annotations: Vec<Option<Vec<Annotation>>>,
    pub view_states: Vec<Option<ViewState>>,
    pub global_view: Option<ViewState>,
    pub last_view_image_size: Option<(i64, i64)>,
    pub completed_frames: Vec<bool>,
}

impl DatasetState {
    /// The three cache arrays track the entry list one slot per entry.
    pub open spec fn wf(&self) -> bool {
        &&& self.entries@.len() > 0
        &&& self.stored_annotations@.len() == self.entries@.len()
        &&& self.view_states@.len() == self.entries@.len()
        &&& self.completed_frames@.len() == self.entries@.len()
        &&& self.current_index < self.entries@.len()
    }

    /// Build a session from the manifest's entries.  A dataset without
    /// images is rejected; otherwise every cache slot starts empty and the
    /// cursor starts at the first image.
    pub fn from_entries(entries: Vec<DatasetEntry>) -> (r: Result<DatasetState, String>)
        ensures
            entries@.len() == 0 <==> r is Err,
            r is Ok ==> r->Ok_0.wf() && r->Ok_0.entries@.len() == entries@.len()
                && r->Ok_0.current_index == 0 && (forall|i: int|
                0 <= i < entries@.len() ==> (#[trigger] r->Ok_0.stored_annotations@[i]) is None
                    && r->Ok_0.view_states@[i] is None && !r->Ok_0.completed_frames@[i])
                && r->Ok_0.global_view is None && r->Ok_0.last_view_image_size is None,
    {
        if entries.len() == 0 {
            return Err("Dataset has no images".to_owned());
        }
        let n = entries.len();
        let mut stored: Vec<Option<Vec<Annotation>>> = Vec::new();
        let mut views: Vec<Option<ViewState>> = Vec::new();
        let mut completed: Vec<bool> = Vec::new();
        let mut i: usize = 0;
        while i < n
            invariant
                0 <= i <= n,
                stored@.len() == i,
                views@.len() == i,
                completed@.len() == i,
                forall|k: int|
                    0 <= k < i ==> (#[trigger] stored@[k]) is None && views@[k] is None
                        && !completed@[k],
            decreases n - i,
        {
            stored.push(None);
            views.push(None);
            completed.push(false);
            i = i + 1;
        }
        Ok(
            DatasetState {
                entries,
                current_index: 0,
                stored_annotations: stored,
                view_states: views,
                global_view: None,
                last_view_image_size: None,
                completed_frames: completed,
            },
        )
    }

    /// Defensive repair: if the three cache arrays have drifted from one
    /// slot per entry (not expected in steady state), put back empty arrays
    /// of the right length; otherwise leave everything untouched.
    pub fn repair_caches(&mut self)
        ensures
            final(self).entries@ == old(self).entries@,
            final(self).current_index == old(self).current_index,
            final(self).global_view == old(self).global_view,
            final(self).last_view_image_size == old(self).last_view_image_size,
            final(self).stored_annotations@.len() == final(self).entries@.len(),
            final(self).view_states@.len() == final(self).entries@.len(),
            final(self).completed_frames@.len() == final(self).entries@.len(),
            old(self).stored_annotations@.len() == old(self).entries@.len() && old(self).view_states@.len() == old(self).entries@.len() && old(self).completed_frames@.len()
                == old(self).entries@.len() ==> final(self).stored_annotations@ == old(self).stored_annotations@ && final(self).view_states@ == old(self).view_states@ && final(self).completed_frames@ == old(self).completed_frames@,
    {
        let n = self.entries.len();
        if self.stored_annotations.len() == n && self.view_states.len() == n
            && self.completed_frames.len() == n {
            return ;
        }
        let mut stored: Vec<Option<Vec<Annotation>>> = Vec::new();
        let mut views: Vec<Option<ViewState>> = Vec::new();
        let mut completed: Vec<bool> = Vec::new();
        let mut i: usize = 0;
        while i < n
            invariant
                0 <= i <= n,
                stored@.len() == i,
                views@.len() == i,
                completed@.len() == i,
            decreases n - i,
        {
            stored.push(None);
            views.push(None);
            completed.push(false);
            i = i + 1;
        }
        self.stored_annotations = stored;
        self.view_states = views;
        self.completed_frames = completed;
    }

    /// Cache the live collection and the current view into this index's
    /// slots before navigation or a full save, and remember the view
    /// globally together with the image size it was captured at.
    pub fn save_current_state(
        &mut self,
        annotations: &Vec<Annotation>,
        view: ViewState,
        img_size: (i64, i64),
    )
        requires
            old(self).wf(),
        ensures
            final(self).wf(),
            final(self).entries@ == old(self).entries@,
            final(self).current_index == old(self).current_index,
            final(self).completed_frames@ == old(self).completed_frames@,
            ({
                let idx = old(self).current_index as int;
                &&& final(self).stored_annotations@.len() == old(self).stored_annotations@.len()
                &&& final(self).stored_annotations@[idx] is Some
                &&& anns_view(final(self).stored_annotations@[idx]->0@) == anns_view(annotations@)
                &&& forall|i: int|
                    0 <= i < old(self).stored_annotations@.len() && i != idx ==> final(self).stored_annotations@[i] == #[trigger] old(self).stored_annotations@[i]
                &&& final(self).view_states@ == old(self).view_states@.update(idx, Some(view))
                &&& final(self).global_view == Some(view)
                &&& final(self).last_view_image_size == Some(img_size)
            }),
    {
        let idx = self.current_index;
        let snap = snapshot_annotations(annotations);
        self.stored_annotations.set(idx, Some(snap));
        self.view_states.set(idx, Some(view));
        self.global_view = Some(view);
        self.last_view_image_size = Some(img_size);
    }

    /// The view to apply after navigating to an image of size `img_size`:
    /// the global view when it was captured at close to the same size, else
    /// this index's cached view, else nothing (the caller resets to fit).
    pub fn choose_view(&self, index: usize, img_size: (i64, i64)) -> (r: Option<ViewState>)
        requires
            self.wf(),
            index < self.entries@.len(),
            coord_ok(img_size.0),
            coord_ok(img_size.1),
        ensures
            match (self.global_view, self.last_view_image_size) {
                (Some(gv), Some(last)) => if coord_ok(last.0) && coord_ok(last.1)
                    && spec_sizes_close(last, img_size, SIZE_TOLERANCE) {
                    r == Some(gv)
                } else {
                    r == self.view_states@[index as int]
                },
                _ => r == self.view_states@[index as int],
            },
    {
        match (&self.global_view, &self.last_view_image_size) {
            (Some(gv), Some(last)) => {
                let last_ok = -COORD_LIMIT <= last.0 && last.0 <= COORD_LIMIT && -COORD_LIMIT
                    <= last.1 && last.1 <= COORD_LIMIT;
                if last_ok && sizes_close(*last, img_size, SIZE_TOLERANCE) {
                    return Some(*gv);
                }
            },
            _ => {},
        }
        match &self.view_states[index] {
            Some(vs) => Some(*vs),
            None => None,
        }
    }

    /// Remember the view chosen for an index (after a reset-to-fit).
    pub fn cache_view(&mut self, index: usize, view: ViewState)
        requires
            old(self).wf(),
            index < old(self).entries@.len(),
        ensures
            final(self).wf(),
            final(self).entries@ == old(self).entries@,
            final(self).current_index == old(self).current_index,
            final(self).stored_annotations@ == old(self).stored_annotations@,
            final(self).completed_frames@ == old(self).completed_frames@,
            final(self).global_view == old(self).global_view,
            final(self).last_view_image_size == old(self).last_view_image_size,
            final(self).view_states@ == old(self).view_states@.update(index as int, Some(view)),
    {
        self.view_states.set(index, Some(view));
    }

    /// Record the loaded collection for an index (populated once per
    /// session).
    pub fn cache_annotations(&mut self, index: usize, anns: &Vec<Annotation>)
        requires
            old(self).wf(),
            index < old(self).entries@.len(),
        ensures
            final(self).wf(),
            final(self).entries@ == old(self).entries@,
            final(self).current_index == old(self).current_index,
            final(self).view_states@ == old(self).view_states@,
            final(self).completed_frames@ == old(self).completed_frames@,
            final(self).global_view == old(self).global_view,
            final(self).last_view_image_size == old(self).last_view_image_size,
            final(self).stored_annotations@.len() == old(self).stored_annotations@.len(),
            final(self).stored_annotations@[index as int] is Some,
            anns_view(final(self).stored_annotations@[index as int]->0@) == anns_view(anns@),
            forall|i: int|
                0 <= i < old(self).stored_annotations@.len() && i != index ==> final(self).stored_annotations@[i] == #[trigger] old(self).stored_annotations@[i],
    {
        let snap = snapshot_annotations(anns);
        self.stored_annotations.set(index, Some(snap));
    }

    /// Move the cursor (navigation has validated the index).
    pub fn set_current(&mut self, index: usize)
        requires
            old(self).wf(),
            index < old(self).entries@.len(),
        ensures
            final(self).wf(),
            final(self).current_index == index,
            final(self).entries@ == old(self).entries@,
            final(self).stored_annotations@ == old(self).stored_annotations@,
            final(self).view_states@ == old(self).view_states@,
            final(self).completed_frames@ == old(self).completed_frames@,
            final(self).global_view == old(self).global_view,
            final(self).last_view_image_size == old(self).last_view_image_size,
    {
        self.current_index = index;
    }

    /// Flip the completion flag of the current frame and return its new
    /// value.
    pub fn toggle_frame_completion(&mut self) -> (r: bool)
        requires
            old(self).wf(),
        ensures
            final(self).wf(),
            final(self).entries@ == old(self).entries@,
            final(self).current_index == old(self).current_index,
            final(self).stored_annotations@ == old(self).stored_annotations@,
            final(self).view_states@ == old(self).view_states@,
            final(self).global_view == old(self).global_view,
            final(self).last_view_image_size == old(self).last_view_image_size,
            final(self).completed_frames@ == old(self).completed_frames@.update(
                old(self).current_index as int,
                !old(self).completed_frames@[old(self).current_index as int],
            ),
            r == !old(self).completed_frames@[old(self).current_index as int],
    {
        let idx = self.current_index;
        let v = !self.completed_frames[idx];
        self.completed_frames.set(idx, v);
        v
    }

    /// The index one step forward, saturating at the last image.
    pub fn next_index(&self) -> (r: usize)
        requires
            self.wf(),
        ensures
            r < self.entries@.len(),
            r == if self.current_index + 1 < self.entries@.len() {
                self.current_index + 1
            } else {
                self.current_index as int
            },
    {
        if self.current_index < self.entries.len() - 1 {
            self.current_index + 1
        } else {
            self.current_index
        }
    }

    /// The index one step back, saturating at the first image.
    pub fn prev_index(&self) -> (r: usize)
        requires
            self.wf(),
        ensures
            r < self.entries@.len(),
            r == if self.current_index == 0 {
                0int
            } else {
                self.current_index - 1
            },
    {
        if self.current_index == 0 {
            0
        } else {
            self.current_index - 1
        }
    }

    /// The index of the last image.
    pub fn last_index(&self) -> (r: usize)
        requires
            self.wf(),
        ensures
            r == self.entries@.len() - 1,
    {
        self.entries.len() - 1
    }
}

/// A full-fidelity record of one shape: every model field except the
/// transient selection, with the outline encoded as text.
pub struct StoredAnnotation {
    pub id: i64,
    pub kind: ShapeKind,
    pub x: i64,
    pub y: i64,
    pub width: i64,
    pub height: i64,
    pub rotation: i64,
    pub selected: bool,
    pub class_id: i64,
    pub state: Lifecycle,
    pub vertices: String,
}

/// Convert a shape to its stored record.  Selection is always dropped.
pub fn ann_to_stored(a: &Annotation) -> (r: StoredAnnotation)
    ensures
        r.id == a@.id,
        r.kind == a@.kind,
        r.x == a@.x,
        r.y == a@.y,
        r.width == a@.width,
        r.height == a@.height,
        r.rotation == a@.rotation,
        !r.selected,
        r.class_id == a@.class_id,
        r.state == a@.state,
        r.vertices@ == vertices_str(a@.vertices),
{
    StoredAnnotation {
        id: a.id,
        kind: a.kind,
        x: a.x,
        y: a.y,
        width: a.width,
        height: a.height,
        rotation: a.rotation,
        selected: false,
        class_id: a.class_id,
        state: a.state,
        vertices: fmt_vertices(&a.vertices),
    }
}

/// Rebuild a shape from its stored record, squeezing out-of-domain values
/// back into the model's bounds.  A record produced by [`ann_to_stored`]
/// from a well-formed shape (whose vertex coordinates stay above the
/// smallest integer) rebuilds that shape exactly, deselected.
pub fn stored_to_annotation(rec: &StoredAnnotation) -> (r: Annotation)
    ensures
        ann_wf(r@),
        r@.kind == rec.kind,
        r@.x == spec_clamp_coord(rec.x as int),
        r@.y == spec_clamp_coord(rec.y as int),
        r@.width == spec_clamp_coord(rec.width as int),
        r@.height == spec_clamp_coord(rec.height as int),
        r@.rotation == rec.rotation,
        r@.id == if 0 <= rec.id < ID_LIMIT {
            rec.id as int
        } else {
            0
        },
        r@.class_id == if -CLASS_LIMIT <= rec.class_id <= CLASS_LIMIT {
            rec.class_id as int
        } else {
            0
        },
        r@.state == rec.state,
        !r@.selected,
        forall|vs: Seq<Vertex>|
            rec.vertices@ == vertices_str(vs) && (forall|k: int|
                0 <= k < vs.len() ==> (#[trigger] vs[k]).x > i64::MIN && vs[k].y > i64::MIN)
                ==> r@.vertices =~= vs,
{
    let id = if 0 <= rec.id && rec.id < ID_LIMIT {
        rec.id
    } else {
        0
    };
    let class_id = if -CLASS_LIMIT <= rec.class_id && rec.class_id <= CLASS_LIMIT {
        rec.class_id
    } else {
        0
    };
    Annotation {
        id,
        kind: rec.kind,
        x: clamp_coord(rec.x),
        y: clamp_coord(rec.y),
        width: clamp_coord(rec.width),
        height: clamp_coord(rec.height),
        rotation: rec.rotation,
        vertices: parse_vertices(rec.vertices.as_str()),
        class_id,
        state: rec.state,
        selected: false,
    }
}


/// The index of the last occurrence of `c` in `s`, if any.
pub open spec fn last_pos(s: Seq<char>, c: char) -> Option<int>
    decreases s.len(),
{
    if s.len() == 0 {
        None
    } else if s.last() == c {
        Some(s.len() - 1)
    } else {
        last_pos(s.drop_last(), c)
    }
}

/// Where the last occurrence of a character sits, characterized without
/// recursion.
pub proof fn lemma_last_pos_of(s: Seq<char>, c: char, j: int)
    requires
        0 <= j < s.len(),
        s[j] == c,
        forall|k: int| j < k < s.len() ==> s[k] != c,
    ensures
        last_pos(s, c) == Some(j),
    decreases s.len(),
{
    if j == s.len() - 1 {
    } else {
        assert(s.last() != c);
        assert(s.drop_last()[j] == s[j]);
        assert(forall|k: int| j < k < s.drop_last().len() ==> #[trigger] s.drop_last()[k] == s[k]);
        lemma_last_pos_of(s.drop_last(), c, j);
    }
}

/// A string without the character has no last position for it.
pub proof fn lemma_last_pos_none(s: Seq<char>, c: char)
    requires
        forall|k: int| 0 <= k < s.len() ==> s[k] != c,
    ensures
        last_pos(s, c) is None,
    decreases s.len(),
{
    if s.len() > 0 {
        assert(forall|k: int| 0 <= k < s.drop_last().len() ==> #[trigger] s.drop_last()[k] == s[k]);
        lemma_last_pos_none(s.drop_last(), c);
    }
}

/// A path with its extension replaced: the part after the final dot of the
/// final component is swapped for `ext`; a component without an extension
/// (no dot, a leading dot, or a dot right after the separator) gets `.ext`
/// appended instead.
pub open spec fn spec_with_extension(s: Seq<char>, ext: Seq<char>) -> Seq<char> {
    let dot = last_pos(s, '.');
    let slash = last_pos(s, '/');
    let replace = match (dot, slash) {
        (Some(d), Some(sl)) => d > sl + 1,
        (Some(d), None) => d > 0,
        _ => false,
    };
    if replace {
        s.take(dot->0) + seq!['.'] + ext
    } else {
        s + seq!['.'] + ext
    }
}

/// The last index of `c` in `s`, by backward scan.
fn rfind_char(s: &str, c: char) -> (r: Option<usize>)
    ensures
        match r {
            Some(j) => j < s@.len() && last_pos(s@, c) == Some(j as int),
            None => last_pos(s@, c) is None,
        },
{
    let n = s.unicode_len();
    let mut i: usize = n;
    while i > 0
        invariant
            0 <= i <= n,
            n == s@.len(),
            forall|k: int| i <= k < n ==> s@[k] != c,
        decreases i,
    {
        i = i - 1;
        if s.get_char(i) == c {
            proof {
                lemma_last_pos_of(s@, c, i as int);
            }
            return Some(i);
        }
    }
    proof {
        lemma_last_pos_none(s@, c);
    }
    None
}

/// Replace or append a path's extension.
pub fn with_extension(path: &str, ext: &str) -> (r: String)
    ensures
        r@ == spec_with_extension(path@, ext@),
{
    let dot = rfind_char(path, '.');
    let slash = rfind_char(path, '/');
    let replace = match (dot, slash) {
        (Some(d), Some(sl)) => d > sl && d - sl > 1,
        (Some(d), None) => d > 0,
        _ => false,
    };
    proof {
        reveal_strlit(".");
    }
    if replace {
        let d = match dot {
            Some(d) => d,
            None => 0,
        };
        let mut r = path.substring_char(0, d).to_owned();
        r.append(".");
        r.append(ext);
        proof {
            assert("."@ =~= seq!['.']);
            assert(r@ =~= path@.take(d as int) + seq!['.'] + ext@);
        }
        r
    } else {
        let mut r = path.to_owned();
        r.append(".");
        r.append(ext);
        proof {
            assert("."@ =~= seq!['.']);
            assert(r@ =~= path@ + seq!['.'] + ext@);
        }
        r
    }
}

/// The label file of an entry: its configured label path, or its image path
/// with a `txt` extension.
pub fn label_path_for(entry: &DatasetEntry) -> (r: String)
    ensures
        match entry.labels_path {
            Some(p) => r@ == p@,
            None => r@ == spec_with_extension(entry.image_path@, "txt"@),
        },
{
    match &entry.labels_path {
        Some(p) => p.clone(),
        None => with_extension(entry.image_path.as_str(), "txt"),
    }
}

/// The full-fidelity state file of an entry: the label path with a
/// `state.json` extension.
pub fn state_path_for(entry: &DatasetEntry) -> (r: String)
    ensures
        ({
            let label = match entry.labels_path {
                Some(p) => p@,
                None => spec_with_extension(entry.image_path@, "txt"@),
            };
            r@ == spec_with_extension(label, "state.json"@)
        }),
{
    let label = label_path_for(entry);
    with_extension(label.as_str(), "state.json")
}

} // verus!
