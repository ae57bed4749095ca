//! Export adapters: the Pascal-VOC-style XML document and the COCO-style
//! dataset structures the full export writes out.

use vstd::prelude::*;
use chrono::Datelike;

verus! {

use crate::model::{ann_wf, Annotation, Lifecycle, ShapeKind};
use crate::classes::{spec_class_name, get_class_name, ClassConfig};
use crate::numfmt::{dec_digits, digit_char, fmt_i64, fmt_u64, int_str};
use crate::COORD_SCALE;

/// The two export formats offered.
#[derive(Clone, Copy, PartialEq, Eq, Structural, Debug)]
pub enum ExportFormat {
    CocoJson,
    PascalVoc,
}

/// What an export produced.
#[derive(Clone, Copy, PartialEq, Eq, Structural, Debug)]
pub struct ExportResult {
    pub images_exported: usize,
    pub annotations_exported: usize,
}

impl ExportFormat {
    /// The format's display name.
    pub fn name(&self) -> (r: &'static str)
        ensures
            *self == ExportFormat::CocoJson ==> r@ == "COCO JSON"@,
            *self == ExportFormat::PascalVoc ==> r@ == "Pascal VOC XML"@,
    {
        match self {
            ExportFormat::CocoJson => "COCO JSON",
            ExportFormat::PascalVoc => "Pascal VOC XML",
        }
    }

    /// The file extension the format uses.
    pub fn extension(&self) -> (r: &'static str)
        ensures
            *self == ExportFormat::CocoJson ==> r@ == "json"@,
            *self == ExportFormat::PascalVoc ==> r@ == "xml"@,
    {
        match self {
            ExportFormat::CocoJson => "json",
            ExportFormat::PascalVoc => "xml",
        }
    }
}

/// One exported object of a VOC document: class name and pixel-space box
/// corners.
pub struct VocObject {
    pub name: String,
    pub bbox: (i64, i64, i64, i64),
    pub difficult: i64,
    pub truncated: i64,
    pub pose: String,
}

/// One VOC document: the image it describes and its objects.
pub struct VocAnnotation {
    pub folder: String,
    pub filename: String,
    pub path: String,
    pub width: i64,
    pub height: i64,
    pub depth: i64,
    pub objects: Vec<VocObject>,
}

/// The XML fragment of one object.
pub open spec fn voc_object_xml(o: VocObject) -> Seq<char> {
    "  <object>\n    <name>"@ + o.name@ + "</name>\n    <pose>"@ + o.pose@
        + "</pose>\n    <truncated>"@ + int_str(o.truncated as int) + "</truncated>\n    <difficult>"@
        + int_str(o.difficult as int) + "</difficult>\n    <bndbox>\n      <xmin>"@ + int_str(
        o.bbox.0 as int,
    ) + "</xmin>\n      <ymin>"@ + int_str(o.bbox.1 as int) + "</ymin>\n      <xmax>"@ + int_str(
        o.bbox.2 as int,
    ) + "</xmax>\n      <ymax>"@ + int_str(o.bbox.3 as int)
        + "</ymax>\n    </bndbox>\n  </object>\n"@
}

/// The XML fragments of every object, in order.
pub open spec fn voc_objects_xml(objects: Seq<VocObject>) -> Seq<char>
    decreases objects.len(),
{
    if objects.len() == 0 {
        Seq::empty()
    } else {
        voc_objects_xml(objects.drop_last()) + voc_object_xml(objects.last())
    }
}

/// The whole document.
pub open spec fn voc_xml(v: VocAnnotation) -> Seq<char> {
    "<?xml version=\"1.0\" encoding=\"UTF-8\"?>\n<annotation>\n  <folder>"@ + v.folder@
        + "</folder>\n  <filename>"@ + v.filename@ + "</filename>\n  <path>"@ + v.path@
        + "</path>\n  <source>\n    <database>Unknown</database>\n  </source>\n  <size>\n    <width>"@
        + int_str(v.width as int) + "</width>\n    <height>"@ + int_str(v.height as int)
        + "</height>\n    <depth>"@ + int_str(v.depth as int)
        + "</depth>\n  </size>\n  <segmented>0</segmented>\n"@ + voc_objects_xml(v.objects@)
        + "</annotation>\n"@
}

impl VocAnnotation {
    /// An empty document for one image: the conventional folder name, an
    /// RGB depth of three, and no objects yet.
    pub fn new(filename: String, width: i64, height: i64) -> (r: VocAnnotation)
        ensures
            r.folder@ == "images"@,
            r.filename == filename,
            r.path@.len() == 0,
            r.width == width,
            r.height == height,
            r.depth == 3,
            r.objects@.len() == 0,
    {
        VocAnnotation {
            folder: "images".to_owned(),
            filename,
            path: String::new(),
            width,
            height,
            depth: 3,
            objects: Vec::new(),
        }
    }

    /// Append one object with the conventional difficulty, truncation and
    /// pose.
    pub fn add_object(&mut self, name: String, xmin: i64, ymin: i64, xmax: i64, ymax: i64)
        ensures
            final(self).objects@.len() == old(self).objects@.len() + 1,
            ({
                let o = final(self).objects@.last();
                &&& o.name == name
                &&& o.bbox == (xmin, ymin, xmax, ymax)
                &&& o.difficult == 0
                &&& o.truncated == 0
                &&& o.pose@ == "Unspecified"@
            }),
            forall|i: int|
                0 <= i < old(self).objects@.len() ==> final(self).objects@[i] == #[trigger] old(
                    self,
                ).objects@[i],
            final(self).folder == old(self).folder,
            final(self).filename == old(self).filename,
            final(self).path == old(self).path,
            final(self).width == old(self).width,
            final(self).height == old(self).height,
            final(self).depth == old(self).depth,
    {
        self.objects.push(
            VocObject {
                name,
                bbox: (xmin, ymin, xmax, ymax),
                difficult: 0,
                truncated: 0,
                pose: "Unspecified".to_owned(),
            },
        );
    }

    /// Render the whole document as XML text.
    pub fn to_xml(&self) -> (s: String)
        ensures
            s@ == voc_xml(*self),
    {
        let mut s = String::new();
        s.append("<?xml version=\"1.0\" encoding=\"UTF-8\"?>\n<annotation>\n  <folder>");
        s.append(self.folder.as_str());
        s.append("</folder>\n  <filename>");
        s.append(self.filename.as_str());
        s.append("</filename>\n  <path>");
        s.append(self.path.as_str());
        s.append(
            "</path>\n  <source>\n    <database>Unknown</database>\n  </source>\n  <size>\n    <width>",
        );
        let w = fmt_i64(self.width);
        s.append(w.as_str());
        s.append("</width>\n    <height>");
        let h = fmt_i64(self.height);
        s.append(h.as_str());
        s.append("</height>\n    <depth>");
        let d = fmt_i64(self.depth);
        s.append(d.as_str());
        s.append("</depth>\n  </size>\n  <segmented>0</segmented>\n");
        let mut i: usize = 0;
        let ghost header = s@;
        while i < self.objects.len()
            invariant
                0 <= i <= self.objects@.len(),
                s@ == header + voc_objects_xml(self.objects@.take(i as int)),
            decreases self.objects@.len() - i,
        {
            let frag = object_xml(&self.objects[i]);
            s.append(frag.as_str());
            proof {
                assert(self.objects@.take(i + 1).drop_last() =~= self.objects@.take(i as int));
                assert(self.objects@.take(i + 1).last() == self.objects@[i as int]);
                assert(s@ =~= header + voc_objects_xml(self.objects@.take(i + 1)));
            }
            i = i + 1;
        }
        s.append("</annotation>\n");
        proof {
            assert(self.objects@.take(self.objects@.len() as int) =~= self.objects@);
            assert(s@ =~= voc_xml(*self));
        }
        s
    }
}

/// Render one object's XML fragment.
fn object_xml(o: &VocObject) -> (s: String)
    ensures
        s@ == voc_object_xml(*o),
{
    let mut s = String::new();
    s.append("  <object>\n    <name>");
    s.append(o.name.as_str());
    s.append("</name>\n    <pose>");
    s.append(o.pose.as_str());
    s.append("</pose>\n    <truncated>");
    let t = fmt_i64(o.truncated);
    s.append(t.as_str());
    s.append("</truncated>\n    <difficult>");
    let df = fmt_i64(o.difficult);
    s.append(df.as_str());
    s.append("</difficult>\n    <bndbox>\n      <xmin>");
    let x0 = fmt_i64(o.bbox.0);
    s.append(x0.as_str());
    s.append("</xmin>\n      <ymin>");
    let y0 = fmt_i64(o.bbox.1);
    s.append(y0.as_str());
    s.append("</ymin>\n      <xmax>");
    let x1 = fmt_i64(o.bbox.2);
    s.append(x1.as_str());
    s.append("</xmax>\n      <ymax>");
    let y1 = fmt_i64(o.bbox.3);
    s.append(y1.as_str());
    s.append("</ymax>\n    </bndbox>\n  </object>\n");
    proof {
        assert(s@ =~= voc_object_xml(*o));
    }
    s
}

/// A fixed-point coordinate in whole units, truncated toward zero, as the
/// pixel-space exports write it.
pub open spec fn spec_units_trunc(v: int) -> int {
    if v >= 0 {
        v / (COORD_SCALE as int)
    } else {
        -((-v) / (COORD_SCALE as int))
    }
}

/// Exec form of [`spec_units_trunc`].
pub fn units_trunc(v: i64) -> (r: i64)
    requires
        v > i64::MIN,
    ensures
        r == spec_units_trunc(v as int),
{
    if v >= 0 {
        v / COORD_SCALE
    } else {
        -((-v) / COORD_SCALE)
    }
}

/// The boxes of a shape list (plain or rotated), in order, as the VOC
/// export walks them.
pub open spec fn spec_voc_boxes(items: Seq<crate::model::AnnView>) -> Seq<crate::model::AnnView> {
    items.filter(
        |a: crate::model::AnnView| a.kind == ShapeKind::Box || a.kind == ShapeKind::RotatedBox,
    )
}

/// What one appended object holds for its source box: the class's display
/// name and the corners truncated to whole pixels.
pub open spec fn spec_voc_object_matches(
    o: VocObject,
    b: crate::model::AnnView,
    config: &ClassConfig,
) -> bool {
    &&& o.bbox == (
        spec_units_trunc(b.x as int) as i64,
        spec_units_trunc(b.y as int) as i64,
        spec_units_trunc(b.x + b.width) as i64,
        spec_units_trunc(b.y + b.height) as i64,
    )
    &&& match spec_class_name(config.classes@, b.class_id) {
        Some(nm) => o.name@ == nm,
        None => o.name@ == "Class "@ + int_str(b.class_id as int),
    }
    &&& o.difficult == 0
    &&& o.truncated == 0
}

/// Append one VOC object per box of a shape list, in order, naming each
/// with its class and converting the corners to whole pixels.  Earlier
/// objects and the document header stay untouched; returns how many objects
/// were appended.
pub fn add_voc_objects(
    voc: &mut VocAnnotation,
    anns: &Vec<Annotation>,
    config: &ClassConfig,
) -> (count: usize)
    requires
        forall|i: int| 0 <= i < anns@.len() ==> ann_wf(#[trigger] anns@[i]@),
    ensures
        count == spec_voc_boxes(crate::model::anns_view(anns@)).len(),
        final(voc).objects@.len() == old(voc).objects@.len() + count,
        forall|k: int|
            0 <= k < old(voc).objects@.len() ==> final(voc).objects@[k] == #[trigger] old(
                voc,
            ).objects@[k],
        forall|k: int|
            0 <= k < count ==> spec_voc_object_matches(
                #[trigger] final(voc).objects@[old(voc).objects@.len() + k],
                spec_voc_boxes(crate::model::anns_view(anns@))[k],
                config,
            ),
        final(voc).folder == old(voc).folder,
        final(voc).filename == old(voc).filename,
        final(voc).path == old(voc).path,
        final(voc).width == old(voc).width,
        final(voc).height == old(voc).height,
        final(voc).depth == old(voc).depth,
{
    let ghost avs = crate::model::anns_view(anns@);
    let ghost pred = |a: crate::model::AnnView|
        a.kind == ShapeKind::Box || a.kind == ShapeKind::RotatedBox;
    let mut count: usize = 0;
    let mut i: usize = 0;
    proof {
        reveal(Seq::filter);
    }
    while i < anns.len()
        invariant
            0 <= i <= anns@.len(),
            forall|k: int| 0 <= k < anns@.len() ==> ann_wf(#[trigger] anns@[k]@),
            avs == crate::model::anns_view(anns@),
            avs.len() == anns@.len(),
            pred == |a: crate::model::AnnView|
                a.kind == ShapeKind::Box || a.kind == ShapeKind::RotatedBox,
            count == avs.take(i as int).filter(pred).len(),
            voc.objects@.len() == old(voc).objects@.len() + count,
            forall|k: int|
                0 <= k < old(voc).objects@.len() ==> voc.objects@[k] == #[trigger] old(
                    voc,
                ).objects@[k],
            forall|k: int|
                0 <= k < count ==> spec_voc_object_matches(
                    #[trigger] voc.objects@[old(voc).objects@.len() + k],
                    avs.take(i as int).filter(pred)[k],
                    config,
                ),
            voc.folder == old(voc).folder,
            voc.filename == old(voc).filename,
            voc.path == old(voc).path,
            voc.width == old(voc).width,
            voc.height == old(voc).height,
            voc.depth == old(voc).depth,
            count <= i,
        decreases anns@.len() - i,
    {
        proof {
            reveal(Seq::filter);
            assert(avs.take(i + 1).drop_last() =~= avs.take(i as int));
            assert(avs.take(i + 1).last() == avs[i as int]);
            assert(avs[i as int] == anns@[i as int]@);
            avs.take(i as int).lemma_filter_len(pred);
        }
        let a = &anns[i];
        let is_box = match a.kind {
            ShapeKind::Box => true,
            ShapeKind::RotatedBox => true,
            _ => false,
        };
        if is_box {
            proof {
                assert(ann_wf(anns@[i as int]@));
            }
            let ghost prev_objs = voc.objects@;
            let name = get_class_name(config, a.class_id);
            let xmin = units_trunc(a.x);
            let ymin = units_trunc(a.y);
            let xmax = units_trunc(a.x + a.width);
            let ymax = units_trunc(a.y + a.height);
            voc.add_object(name, xmin, ymin, xmax, ymax);
            count = count + 1;
            proof {
                let filt = avs.take(i + 1).filter(pred);
                let base = old(voc).objects@.len() as int;
                assert(filt =~= avs.take(i as int).filter(pred).push(avs[i as int]));
                assert(voc.objects@.last() == voc.objects@[base + (count - 1)]);
                assert(spec_voc_object_matches(voc.objects@.last(), avs[i as int], config));
                assert forall|k: int| 0 <= k < count implies spec_voc_object_matches(
                    #[trigger] voc.objects@[base + k],
                    filt[k],
                    config,
                ) by {
                    if k < count - 1 {
                        assert(voc.objects@[base + k] == prev_objs[base + k]);
                        assert(filt[k] == avs.take(i as int).filter(pred)[k]);
                    } else {
                        assert(filt[k] == avs[i as int]);
                    }
                }
            }
        }
        i = i + 1;
    }
    proof {
        assert(avs.take(avs.len() as int) =~= avs);
    }
    count
}

/// The COCO header block.
pub struct CocoInfo {
    pub year: i64,
    pub version: String,
    pub description: String,
    pub contributor: String,
    pub date_created: String,
}

/// One image entry.
pub struct CocoImage {
    pub id: i64,
    pub width: i64,
    pub height: i64,
    pub file_name: String,
}

/// One annotation entry: a box (fixed-point units) or a flattened outline
/// with its doubled shoelace area.
pub struct CocoAnnotation {
    pub id: i64,
    pub image_id: i64,
    pub category_id: i64,
    pub bbox: Option<(i64, i64, i64, i64)>,
    pub segmentation: Option<Vec<i64>>,
    pub area2: Option<i128>,
    pub iscrowd: i64,
}

/// One category entry.
pub struct CocoCategory {
    pub id: i64,
    pub name: String,
    pub supercategory: String,
}

/// The whole COCO-style dataset.
pub struct CocoDataset {
    pub info: CocoInfo,
    pub images: Vec<CocoImage>,
    pub annotations: Vec<CocoAnnotation>,
    pub categories: Vec<CocoCategory>,
}

/// Relies on `chrono::Local::now` and `chrono::Datelike`: the current local
/// date as year, month and day; chrono documents the month as 1..=12 and
/// the day as 1..=31.  The year depends on the clock, so nothing more is
/// promised of it.
#[verifier::external_body]
fn today_ymd() -> (r: (i64, u8, u8))
    ensures
        1 <= r.1 <= 12,
        1 <= r.2 <= 31,
{
    let now = chrono::Local::now();
    (now.year() as i64, now.month() as u8, now.day() as u8)
}

/// Two decimal digits, zero padded.
pub open spec fn two_digits(n: int) -> Seq<char> {
    seq![digit_char(n / 10), digit_char(n % 10)]
}

fn fmt_two_digits(n: u8) -> (s: String)
    requires
        n < 100,
    ensures
        s@ == two_digits(n as int),
{
    let hi = (n / 10) as u64;
    let lo = (n % 10) as u64;
    let mut s = fmt_u64(hi);
    let t = fmt_u64(lo);
    s.append(t.as_str());
    proof {
        crate::numfmt::lemma_dec_digits(hi as nat);
        crate::numfmt::lemma_dec_digits(lo as nat);
        assert(dec_digits(hi as nat) =~= seq![digit_char(n as int / 10)]);
        assert(dec_digits(lo as nat) =~= seq![digit_char(n as int % 10)]);
        assert(s@ =~= two_digits(n as int));
    }
    s
}

impl CocoDataset {
    /// A fresh dataset: the header carries today's date (from the system
    /// clock) as `year-month-day` with two-digit month and day, and the
    /// conventional version and description strings.
    pub fn new() -> (r: CocoDataset)
        ensures
            r.images@.len() == 0,
            r.annotations@.len() == 0,
            r.categories@.len() == 0,
            r.info.version@ == "1.0"@,
            r.info.description@ == "Dataset exported from Annotator"@,
            r.info.contributor@ == "Annotator"@,
            exists|m: int, d: int|
                #![trigger two_digits(m), two_digits(d)]
                1 <= m <= 12 && 1 <= d <= 31 && r.info.date_created@ == int_str(r.info.year as int)
                    + "-"@ + two_digits(m) + "-"@ + two_digits(d),
    {
        let (year, month, day) = today_ymd();
        let mut date = fmt_i64(year);
        proof {
            reveal_strlit("-");
        }
        date.append("-");
        let m = fmt_two_digits(month);
        date.append(m.as_str());
        date.append("-");
        let d = fmt_two_digits(day);
        date.append(d.as_str());
        proof {
            assert(date@ =~= int_str(year as int) + "-"@ + two_digits(month as int) + "-"@
                + two_digits(day as int));
        }
        CocoDataset {
            info: CocoInfo {
                year,
                version: "1.0".to_owned(),
                description: "Dataset exported from Annotator".to_owned(),
                contributor: "Annotator".to_owned(),
                date_created: date,
            },
            images: Vec::new(),
            annotations: Vec::new(),
            categories: Vec::new(),
        }
    }

    /// Append one category under the conventional supercategory.
    pub fn add_category(&mut self, id: i64, name: String)
        ensures
            final(self).categories@.len() == old(self).categories@.len() + 1,
            ({
                let c = final(self).categories@.last();
                &&& c.id == id
                &&& c.name == name
                &&& c.supercategory@ == "object"@
            }),
            forall|i: int|
                0 <= i < old(self).categories@.len() ==> final(self).categories@[i]
                    == #[trigger] old(self).categories@[i],
            final(self).images@ == old(self).images@,
            final(self).annotations@ == old(self).annotations@,
    {
        self.categories.push(CocoCategory { id, name, supercategory: "object".to_owned() });
    }
}

} // verus!
