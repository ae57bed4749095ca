//! The derived label format: one line per live box, class shifted to the
//! zero-based external convention, geometry normalized to the image
//! dimensions in parts per million.

use vstd::prelude::*;

verus! {

use crate::{coord_ok, spec_clamp_coord, COORD_LIMIT};
use crate::codec::{join_spec, lemma_join_push, lemma_split_join, split_char, split_spec};
use crate::model::{
    ann_wf, AnnView, Annotation, Lifecycle, ShapeKind, CLASS_LIMIT,
};
use crate::numfmt::{
    all_digits, dec_digits, int_str, int_val, is_digit, lemma_dec_digits, lemma_int_str_val,
    lemma_scaled_str_val, parse_i64, parse_scaled, fmt_i64, fmt_scaled, scaled_str, scaled_val,
};

/// One normalized coordinate unit, in parts per million.
pub const PPM: i64 = 1_000_000;

/// One line of the label format, as plain numbers: a zero-based class and
/// the box geometry as center/extent fractions of the image size.
#[derive(Clone, Copy, PartialEq, Eq, Structural, Debug)]
pub struct LabelRecord {
    pub class0: i64,
    pub cx_ppm: i64,
    pub cy_ppm: i64,
    pub w_ppm: i64,
    pub h_ppm: i64,
}

/// Division rounded to nearest (half away from zero for the nonnegative
/// arguments it is used with).
pub open spec fn spec_rd(a: int, b: int) -> int {
    (a + b / 2) / b
}

/// `v` squeezed into `[lo, hi]`.
pub open spec fn spec_clamp(v: int, lo: int, hi: int) -> int {
    if v < lo {
        lo
    } else if v > hi {
        hi
    } else {
        v
    }
}

/// A coordinate normalized against a dimension: clamped into the image, then
/// scaled to parts per million with rounding.
pub open spec fn spec_ppm_of(v: int, size: int) -> int {
    spec_rd(spec_clamp(v, 0, size) * (PPM as int), size)
}

/// A normalized value turned back into a coordinate.
pub open spec fn spec_from_ppm(ppm: int, size: int) -> int {
    spec_rd(ppm * size, PPM as int)
}

/// The text of one label line: the five fields separated by single spaces,
/// the four geometry fields with six decimal places.
pub open spec fn label_line_str(r: LabelRecord) -> Seq<char> {
    int_str(r.class0 as int) + seq![' '] + scaled_str(r.cx_ppm as int, 6) + seq![' ']
        + scaled_str(r.cy_ppm as int, 6) + seq![' '] + scaled_str(r.w_ppm as int, 6) + seq![' ']
        + scaled_str(r.h_ppm as int, 6)
}

/// Render one label line.
pub fn render_label_line(r: &LabelRecord) -> (s: String)
    ensures
        s@ == label_line_str(*r),
{
    let mut s = fmt_i64(r.class0);
    proof {
        reveal_strlit(" ");
    }
    s.append(" ");
    let t1 = fmt_scaled(r.cx_ppm, 6);
    s.append(t1.as_str());
    s.append(" ");
    let t2 = fmt_scaled(r.cy_ppm, 6);
    s.append(t2.as_str());
    s.append(" ");
    let t3 = fmt_scaled(r.w_ppm, 6);
    s.append(t3.as_str());
    s.append(" ");
    let t4 = fmt_scaled(r.h_ppm, 6);
    s.append(t4.as_str());
    proof {
        assert(" "@ =~= seq![' ']);
        assert(s@ =~= label_line_str(*r));
    }
    s
}

/// Every character of a signed integer rendering is a digit or the sign.
proof fn lemma_int_str_chars(v: int)
    ensures
        forall|c: int|
            0 <= c < int_str(v).len() ==> is_digit(#[trigger] int_str(v)[c]) || int_str(v)[c]
                == '-',
        int_str(v).len() >= 1,
{
    if v >= 0 {
        lemma_dec_digits(v as nat);
    } else {
        lemma_dec_digits((-v) as nat);
        let s = int_str(v);
        assert forall|c: int| 0 <= c < s.len() implies is_digit(#[trigger] s[c]) || s[c]
            == '-' by {
            if c > 0 {
                assert(s[c] == dec_digits((-v) as nat)[c - 1]);
            }
        }
    }
}

/// The five pieces of a label line, in order.
pub open spec fn label_tokens(r: LabelRecord) -> Seq<Seq<char>> {
    seq![
        int_str(r.class0 as int),
        scaled_str(r.cx_ppm as int, 6),
        scaled_str(r.cy_ppm as int, 6),
        scaled_str(r.w_ppm as int, 6),
        scaled_str(r.h_ppm as int, 6),
    ]
}

/// The line is the five tokens joined with spaces.
proof fn lemma_label_line_join(r: LabelRecord)
    ensures
        label_line_str(r) =~= join_spec(label_tokens(r), ' '),
        forall|k: int, c: int|
            0 <= k < label_tokens(r).len() && 0 <= c < label_tokens(r)[k].len()
                ==> #[trigger] label_tokens(r)[k][c] != ' ',
        forall|k: int| 0 <= k < label_tokens(r).len() ==> (#[trigger] label_tokens(r)[k]).len() > 0,
{
    let ts = label_tokens(r);
    let t0 = ts.subrange(0, 1);
    assert(join_spec(ts, ' ') =~= ts[0] + seq![' '] + join_spec(ts.subrange(1, 5), ' '));
    assert(join_spec(ts.subrange(1, 5), ' ') =~= ts.subrange(1, 5)[0] + seq![' '] + join_spec(
        ts.subrange(1, 5).subrange(1, 4),
        ' ',
    ));
    assert(ts.subrange(1, 5).subrange(1, 4) =~= ts.subrange(2, 5));
    assert(join_spec(ts.subrange(2, 5), ' ') =~= ts.subrange(2, 5)[0] + seq![' '] + join_spec(
        ts.subrange(2, 5).subrange(1, 3),
        ' ',
    ));
    assert(ts.subrange(2, 5).subrange(1, 3) =~= ts.subrange(3, 5));
    assert(join_spec(ts.subrange(3, 5), ' ') =~= ts.subrange(3, 5)[0] + seq![' '] + join_spec(
        ts.subrange(3, 5).subrange(1, 2),
        ' ',
    ));
    assert(ts.subrange(3, 5).subrange(1, 2) =~= ts.subrange(4, 5));
    assert(join_spec(ts.subrange(4, 5), ' ') == ts.subrange(4, 5)[0]);
    assert(' ' as int == 32);
    assert('-' as int == 45);
    assert('.' as int == 46);
    lemma_int_str_chars(r.class0 as int);
    crate::codec::lemma_scaled_str_chars(r.cx_ppm as int, 6);
    crate::codec::lemma_scaled_str_chars(r.cy_ppm as int, 6);
    crate::codec::lemma_scaled_str_chars(r.w_ppm as int, 6);
    crate::codec::lemma_scaled_str_chars(r.h_ppm as int, 6);
    assert forall|k: int, c: int|
        0 <= k < ts.len() && 0 <= c < ts[k].len() implies #[trigger] ts[k][c] != ' ' by {
        if k == 0 {
            assert(is_digit(ts[k][c]) || ts[k][c] == '-');
        }
    }
    assert forall|k: int| 0 <= k < ts.len() implies (#[trigger] ts[k]).len() > 0 by {
        if k > 0 {
            lemma_scaled_str_nonempty();
        }
    }
}

/// A fixed-point rendering always holds at least a dot.
proof fn lemma_scaled_str_nonempty()
    ensures
        forall|v: int, p: nat| (#[trigger] scaled_str(v, p)).len() >= 2,
{
    assert forall|v: int, p: nat| (#[trigger] scaled_str(v, p)).len() >= 2 by {
        let mag = if v < 0 {
            -v
        } else {
            v
        };
        crate::numfmt::lemma_pow10_pos(p);
        assert(mag / crate::numfmt::pow10(p) >= 0) by (nonlinear_arith)
            requires
                mag >= 0,
                crate::numfmt::pow10(p) >= 1,
        ;
        crate::numfmt::lemma_dec_digits((mag / crate::numfmt::pow10(p)) as nat);
    }
}

/// The signed-integer reading of one field, with its fallback for an
/// unreadable or out-of-range field.
pub open spec fn spec_field_int(t: Seq<char>, fallback: i64) -> i64 {
    match int_val(t) {
        Some(v) => if i64::MIN <= v <= i64::MAX {
            v as i64
        } else {
            fallback
        },
        None => fallback,
    }
}

/// The six-decimal fixed-point reading of one field, with its fallback.
pub open spec fn spec_field_scaled(t: Seq<char>, fallback: i64) -> i64 {
    match scaled_val(t, 6) {
        Some(v) => if -i64::MAX <= v <= i64::MAX {
            v as i64
        } else {
            fallback
        },
        None => fallback,
    }
}

/// The record a line denotes: nothing unless the line has exactly five
/// non-empty space-separated fields; an unreadable field falls back to the
/// centered, zero-sized default.
pub open spec fn spec_parse_label_line(s: Seq<char>) -> Option<LabelRecord> {
    let toks = split_spec(s, ' ').filter(|t: Seq<char>| t.len() > 0);
    if toks.len() != 5 {
        None
    } else {
        Some(
            LabelRecord {
                class0: spec_field_int(toks[0], 0),
                cx_ppm: spec_field_scaled(toks[1], 500_000),
                cy_ppm: spec_field_scaled(toks[2], 500_000),
                w_ppm: spec_field_scaled(toks[3], 0),
                h_ppm: spec_field_scaled(toks[4], 0),
            },
        )
    }
}

/// Parse one label line: exactly [`spec_parse_label_line`].  Lines rendered
/// by [`render_label_line`] parse back to exactly the record they were made
/// from.
#[verifier::rlimit(100)]
pub fn parse_label_line(s: &str) -> (r: Option<LabelRecord>)
    ensures
        r == spec_parse_label_line(s@),
        r is Some <==> split_spec(s@, ' ').filter(|t: Seq<char>| t.len() > 0).len() == 5,
        forall|rec: LabelRecord|
            s@ == label_line_str(rec) && rec.cx_ppm > i64::MIN && rec.cy_ppm > i64::MIN
                && rec.w_ppm > i64::MIN && rec.h_ppm > i64::MIN ==> r == Some(rec),
{
    let pieces = split_char(s, ' ');
    let ghost all_toks = pieces@.map_values(|t: String| t@);
    let mut tokens: Vec<String> = Vec::new();
    let mut i: usize = 0;
    let ghost pred = |t: Seq<char>| t.len() > 0;
    proof {
        reveal(Seq::filter);
    }
    while i < pieces.len()
        invariant
            0 <= i <= pieces@.len(),
            all_toks == pieces@.map_values(|t: String| t@),
            all_toks.len() == pieces@.len(),
            pred == |t: Seq<char>| t.len() > 0,
            tokens@.map_values(|t: String| t@) =~= all_toks.take(i as int).filter(pred),
        decreases pieces@.len() - i,
    {
        proof {
            reveal(Seq::filter);
            assert(all_toks.take(i + 1).drop_last() =~= all_toks.take(i as int));
            assert(all_toks.take(i + 1).last() == all_toks[i as int]);
        }
        if pieces[i].as_str().unicode_len() > 0 {
            let ghost prev = tokens@.map_values(|t: String| t@);
            let piece = pieces[i].as_str().to_owned();
            tokens.push(piece);
            proof {
                assert(tokens@.map_values(|t: String| t@) =~= prev.push(all_toks[i as int]));
            }
        }
        i = i + 1;
    }
    proof {
        assert(all_toks.take(all_toks.len() as int) =~= all_toks);
    }
    if tokens.len() != 5 {
        proof {
            assert forall|rec: LabelRecord| s@ != label_line_str(rec) by {
                if s@ == label_line_str(rec) {
                    lemma_label_line_join(rec);
                    lemma_split_join(label_tokens(rec), ' ');
                    assert(all_toks =~= label_tokens(rec));
                    lemma_filter_all_nonempty(label_tokens(rec));
                }
            }
        }
        None
    } else {
        let class0 = match parse_i64(tokens[0].as_str()) {
            Some(v) => v,
            None => 0,
        };
        let cx_ppm = match parse_scaled(tokens[1].as_str(), 6) {
            Some(v) => v,
            None => 500_000,
        };
        let cy_ppm = match parse_scaled(tokens[2].as_str(), 6) {
            Some(v) => v,
            None => 500_000,
        };
        let w_ppm = match parse_scaled(tokens[3].as_str(), 6) {
            Some(v) => v,
            None => 0,
        };
        let h_ppm = match parse_scaled(tokens[4].as_str(), 6) {
            Some(v) => v,
            None => 0,
        };
        let out = LabelRecord { class0, cx_ppm, cy_ppm, w_ppm, h_ppm };
        proof {
            let toks = split_spec(s@, ' ').filter(|t: Seq<char>| t.len() > 0);
            assert(tokens@.map_values(|t: String| t@) =~= toks);
            assert(tokens@[0]@ == toks[0]);
            assert(tokens@[1]@ == toks[1]);
            assert(tokens@[2]@ == toks[2]);
            assert(tokens@[3]@ == toks[3]);
            assert(tokens@[4]@ == toks[4]);
            assert(class0 == spec_field_int(toks[0], 0));
            assert(cx_ppm == spec_field_scaled(toks[1], 500_000));
            assert(cy_ppm == spec_field_scaled(toks[2], 500_000));
            assert(w_ppm == spec_field_scaled(toks[3], 0));
            assert(h_ppm == spec_field_scaled(toks[4], 0));
            assert forall|rec: LabelRecord|
                s@ == label_line_str(rec) && rec.cx_ppm > i64::MIN && rec.cy_ppm > i64::MIN
                    && rec.w_ppm > i64::MIN && rec.h_ppm > i64::MIN implies Some(out) == Some(
                rec,
            ) by {
                lemma_label_line_join(rec);
                lemma_split_join(label_tokens(rec), ' ');
                assert(all_toks =~= label_tokens(rec));
                lemma_filter_all_nonempty(label_tokens(rec));
                assert(tokens@.map_values(|t: String| t@) =~= label_tokens(rec));
                lemma_int_str_val(rec.class0 as int);
                lemma_scaled_str_val(rec.cx_ppm as int, 6);
                lemma_scaled_str_val(rec.cy_ppm as int, 6);
                lemma_scaled_str_val(rec.w_ppm as int, 6);
                lemma_scaled_str_val(rec.h_ppm as int, 6);
                assert(tokens@[0]@ == int_str(rec.class0 as int));
                assert(tokens@[1]@ == scaled_str(rec.cx_ppm as int, 6));
                assert(tokens@[2]@ == scaled_str(rec.cy_ppm as int, 6));
                assert(tokens@[3]@ == scaled_str(rec.w_ppm as int, 6));
                assert(tokens@[4]@ == scaled_str(rec.h_ppm as int, 6));
            }
        }
        Some(out)
    }
}

/// Filtering a list of non-empty pieces for non-emptiness keeps all of them.
proof fn lemma_filter_all_nonempty(ts: Seq<Seq<char>>)
    requires
        forall|k: int| 0 <= k < ts.len() ==> (#[trigger] ts[k]).len() > 0,
    ensures
        ts.filter(|t: Seq<char>| t.len() > 0) =~= ts,
    decreases ts.len(),
{
    reveal(Seq::filter);
    if ts.len() > 0 {
        assert forall|k: int| 0 <= k < ts.drop_last().len() implies (
        #[trigger] ts.drop_last()[k]).len() > 0 by {
            assert(ts.drop_last()[k] == ts[k]);
        }
        lemma_filter_all_nonempty(ts.drop_last());
        assert(ts.drop_last().push(ts.last()) =~= ts);
    }
}


/// Whether a shape appears in the label file: live (not Rejected) and a
/// plain or rotated box.
pub open spec fn exportable(a: AnnView) -> bool {
    a.state != Lifecycle::Rejected && (a.kind == ShapeKind::Box || a.kind == ShapeKind::RotatedBox)
}

/// The label record of one box against the image dimensions: zero-based
/// class, center and extents normalized to parts per million and clamped
/// into the unit range.
pub open spec fn spec_encode(a: AnnView, img_w: int, img_h: int) -> LabelRecord {
    LabelRecord {
        class0: (if a.class_id >= 1 {
            a.class_id - 1
        } else {
            0
        }) as i64,
        cx_ppm: spec_ppm_of(a.x + a.width / 2, img_w) as i64,
        cy_ppm: spec_ppm_of(a.y + a.height / 2, img_h) as i64,
        w_ppm: spec_ppm_of(a.width as int, img_w) as i64,
        h_ppm: spec_ppm_of(a.height as int, img_h) as i64,
    }
}

/// The normalized value lies in the unit range.
pub proof fn lemma_ppm_of_bounds(v: int, size: int)
    requires
        1 <= size,
    ensures
        0 <= spec_ppm_of(v, size) <= PPM,
{
    let c = spec_clamp(v, 0, size);
    let m = PPM as int;
    assert(c * m >= 0) by (nonlinear_arith)
        requires
            c >= 0,
            m >= 1,
    ;
    assert(c * m <= size * m) by (nonlinear_arith)
        requires
            c <= size,
            m >= 1,
    ;
    vstd::arithmetic::div_mod::lemma_fundamental_div_mod(c * m + size / 2, size);
    vstd::arithmetic::div_mod::lemma_mod_bound(c * m + size / 2, size);
    let p = spec_rd(c * m, size);
    assert(size * p <= c * m + size / 2);
    assert(c * m + size / 2 < size * p + size);
    assert(size * p <= size * m + size / 2);
    assert(p <= m) by (nonlinear_arith)
        requires
            size * p <= size * m + size / 2,
            size >= 1,
            size / 2 < size,
    ;
    assert(p >= 0) by (nonlinear_arith)
        requires
            c * m + size / 2 < size * p + size,
            c * m >= 0,
            size / 2 >= 0,
            size >= 1,
    ;
}

/// Half of a coordinate, rounded toward negative infinity.
pub fn half_floor(v: i64) -> (r: i64)
    requires
        coord_ok(v),
    ensures
        r == v as int / 2,
{
    if v >= 0 {
        v / 2
    } else {
        let r = -((-v + 1) / 2);
        proof {
            vstd::arithmetic::div_mod::lemma_fundamental_div_mod((-v + 1) as int, 2);
            vstd::arithmetic::div_mod::lemma_fundamental_div_mod(v as int, 2);
        }
        r
    }
}

/// Clamp a coordinate into `[0, size]`.
fn clamp_to_size(v: i64, size: i64) -> (r: i64)
    requires
        1 <= size,
    ensures
        r == spec_clamp(v as int, 0, size as int),
{
    if v < 0 {
        0
    } else if v > size {
        size
    } else {
        v
    }
}

/// Normalize one coordinate against a dimension.
fn ppm_of(v: i64, size: i64) -> (r: i64)
    requires
        1 <= size <= COORD_LIMIT,
        coord_ok(v) || (-2 * COORD_LIMIT <= v <= 2 * COORD_LIMIT),
    ensures
        r == spec_ppm_of(v as int, size as int),
        0 <= r <= PPM,
{
    let c = clamp_to_size(v, size);
    let num: i128 = (c as i128) * 1_000_000 + (size as i128) / 2;
    let p: i128 = num / (size as i128);
    proof {
        lemma_ppm_of_bounds(v as int, size as int);
    }
    p as i64
}

/// Encode one shape as a label record.
pub fn encode_box(a: &Annotation, img_w: i64, img_h: i64) -> (r: LabelRecord)
    requires
        ann_wf(a@),
        1 <= img_w <= COORD_LIMIT,
        1 <= img_h <= COORD_LIMIT,
    ensures
        r == spec_encode(a@, img_w as int, img_h as int),
{
    let class0 = if a.class_id >= 1 {
        a.class_id - 1
    } else {
        0
    };
    let cx = a.x + half_floor(a.width);
    let cy = a.y + half_floor(a.height);
    LabelRecord {
        class0,
        cx_ppm: ppm_of(cx, img_w),
        cy_ppm: ppm_of(cy, img_h),
        w_ppm: ppm_of(a.width, img_w),
        h_ppm: ppm_of(a.height, img_h),
    }
}

/// Turn a normalized value back into a coordinate, clamped into the
/// coordinate domain.
fn from_ppm(ppm: i64, size: i64) -> (r: i64)
    requires
        1 <= size <= COORD_LIMIT,
    ensures
        r == spec_clamp_coord(spec_from_ppm(ppm as int, size as int)),
{
    proof {
        assert((ppm as i128) * (size as i128) <= 0x8000_0000_0000_0000i128 * 0x1_0000_0000_0000i128
            && (ppm as i128) * (size as i128) >= -(0x8000_0000_0000_0000i128
            * 0x1_0000_0000_0000i128)) by (nonlinear_arith)
            requires
                -0x8000_0000_0000_0000i128 <= ppm as i128 <= 0x8000_0000_0000_0000i128,
                0 <= size as i128 <= 0x1_0000_0000_0000i128,
        ;
    }
    let num: i128 = (ppm as i128) * (size as i128) + 500_000;
    let m: i128 = 1_000_000;
    let v: i128 = if num >= 0 {
        num / m
    } else {
        -((-num + m - 1) / m)
    };
    proof {
        assert((PPM as int) / 2 == 500_000);
        let nn = num as int;
        let q = nn / 1_000_000;
        vstd::arithmetic::div_mod::lemma_fundamental_div_mod(nn, 1_000_000);
        vstd::arithmetic::div_mod::lemma_mod_bound(nn, 1_000_000);
        if num < 0 {
            let rmd = nn % 1_000_000;
            vstd::arithmetic::div_mod::lemma_fundamental_div_mod(-nn + 1_000_000 - 1, 1_000_000);
            vstd::arithmetic::div_mod::lemma_mod_bound(-nn + 1_000_000 - 1, 1_000_000);
            assert(-nn + 1_000_000 - 1 == 1_000_000 * (-q) + (1_000_000 - rmd - 1));
            assert(0 <= 1_000_000 - rmd - 1 < 1_000_000);
            assert((-nn + 1_000_000 - 1) / 1_000_000 == -q) by {
                vstd::arithmetic::div_mod::lemma_div_multiples_vanish_fancy(
                    -q,
                    1_000_000 - rmd - 1,
                    1_000_000,
                );
            }
        }
        assert(v as int == spec_from_ppm(ppm as int, size as int));
    }
    if v < -(COORD_LIMIT as i128) {
        -COORD_LIMIT
    } else if v > COORD_LIMIT as i128 {
        COORD_LIMIT
    } else {
        v as i64
    }
}

/// The box a label record describes, with the one-based class restored.
pub open spec fn spec_decode(rec: LabelRecord, img_w: int, img_h: int) -> (i64, i64, i64, i64, i64) {
    let w = spec_clamp_coord(spec_from_ppm(rec.w_ppm as int, img_w));
    let h = spec_clamp_coord(spec_from_ppm(rec.h_ppm as int, img_h));
    let cx = spec_clamp_coord(spec_from_ppm(rec.cx_ppm as int, img_w));
    let cy = spec_clamp_coord(spec_from_ppm(rec.cy_ppm as int, img_h));
    let x = spec_clamp_coord(cx as int - w as int / 2);
    let y = spec_clamp_coord(cy as int - h as int / 2);
    let class_id = (spec_clamp(rec.class0 as int, -CLASS_LIMIT, CLASS_LIMIT - 1) + 1) as i64;
    (x, y, w, h, class_id)
}

/// Reconstruct the shape a label record describes, as a Pending box with a
/// fresh id.
pub fn record_to_annotation(rec: &LabelRecord, img_w: i64, img_h: i64, id: i64) -> (r: Annotation)
    requires
        1 <= img_w <= COORD_LIMIT,
        1 <= img_h <= COORD_LIMIT,
        0 <= id < crate::model::ID_LIMIT,
    ensures
        ann_wf(r@),
        r@.id == id,
        r@.kind == ShapeKind::Box,
        r@.state == Lifecycle::Pending,
        !r@.selected,
        r@.vertices.len() == 0,
        r@.rotation == 0,
        (r@.x, r@.y, r@.width, r@.height, r@.class_id) == spec_decode(
            *rec,
            img_w as int,
            img_h as int,
        ),
{
    let w = from_ppm(rec.w_ppm, img_w);
    let h = from_ppm(rec.h_ppm, img_h);
    let cx = from_ppm(rec.cx_ppm, img_w);
    let cy = from_ppm(rec.cy_ppm, img_h);
    let x = crate::clamp_coord(cx - half_floor(w));
    let y = crate::clamp_coord(cy - half_floor(h));
    proof {
        assert(spec_clamp_coord(spec_from_ppm(rec.cx_ppm as int, img_w as int)) == cx);
    }
    let class_raw = if rec.class0 < -CLASS_LIMIT {
        -CLASS_LIMIT
    } else if rec.class0 > CLASS_LIMIT - 1 {
        CLASS_LIMIT - 1
    } else {
        rec.class0
    };
    Annotation {
        id,
        kind: ShapeKind::Box,
        x,
        y,
        width: w,
        height: h,
        rotation: 0,
        vertices: Vec::new(),
        class_id: class_raw + 1,
        state: Lifecycle::Pending,
        selected: false,
    }
}

/// Normalizing and denormalizing moves a coordinate by at most half a part
/// per million of the dimension, plus rounding slack: the scaled difference
/// `2 * PPM * (back - v)` stays within `size + 3 * PPM` of zero.
pub proof fn lemma_ppm_round_trip(v: int, size: int)
    requires
        0 <= v <= size,
        1 <= size,
    ensures
        ({
            let back = spec_from_ppm(spec_ppm_of(v, size), size);
            -(size + 3 * (PPM as int)) <= 2 * (PPM as int) * (back - v) <= size + 3 * (PPM as int)
        }),
{
    let m = PPM as int;
    let p = spec_ppm_of(v, size);
    let back = spec_from_ppm(p, size);
    assert(spec_clamp(v, 0, size) == v);
    assert(v * m >= 0) by (nonlinear_arith)
        requires
            v >= 0,
            m >= 1,
    ;
    vstd::arithmetic::div_mod::lemma_fundamental_div_mod(v * m + size / 2, size);
    vstd::arithmetic::div_mod::lemma_mod_bound(v * m + size / 2, size);
    assert(size * p <= v * m + size / 2 < size * p + size);
    assert(p * size == size * p) by (nonlinear_arith);
    vstd::arithmetic::div_mod::lemma_fundamental_div_mod(p * size + m / 2, m);
    vstd::arithmetic::div_mod::lemma_mod_bound(p * size + m / 2, m);
    assert(m * back <= p * size + m / 2 < m * back + m);
    assert(m * back <= v * m + size / 2 + m / 2);
    assert(m * back + m > v * m + size / 2 - size + m / 2);
    assert(v * m == m * v) by (nonlinear_arith);
    assert(2 * (m * back - m * v) <= size + m);
    assert(2 * (m * back - m * v) > -2 * size - m - 2);
    assert(m * back - m * v == m * (back - v)) by (nonlinear_arith);
    vstd::arithmetic::mul::lemma_mul_is_associative(2, m, back - v);
}

/// The records of every exportable shape, in list order.
pub open spec fn records_of(items: Seq<AnnView>, img_w: int, img_h: int) -> Seq<LabelRecord> {
    items.filter(|a: AnnView| exportable(a)).map_values(
        |a: AnnView| spec_encode(a, img_w, img_h),
    )
}

/// Encode the label records for a shape list: one record per live box, in
/// order; Rejected shapes and non-box shapes never appear.
pub fn encode_label_records(anns: &Vec<Annotation>, img_w: i64, img_h: i64) -> (r: Vec<
    LabelRecord,
>)
    requires
        forall|i: int| 0 <= i < anns@.len() ==> ann_wf(#[trigger] anns@[i]@),
        1 <= img_w <= COORD_LIMIT,
        1 <= img_h <= COORD_LIMIT,
    ensures
        r@ =~= records_of(crate::model::anns_view(anns@), img_w as int, img_h as int),
{
    let ghost avs = crate::model::anns_view(anns@);
    let ghost pred = |a: AnnView| exportable(a);
    let ghost enc = |a: AnnView| spec_encode(a, img_w as int, img_h as int);
    let mut out: Vec<LabelRecord> = Vec::new();
    let mut i: usize = 0;
    proof {
        reveal(Seq::filter);
    }
    while i < anns.len()
        invariant
            0 <= i <= anns@.len(),
            forall|k: int| 0 <= k < anns@.len() ==> ann_wf(#[trigger] anns@[k]@),
            1 <= img_w <= COORD_LIMIT,
            1 <= img_h <= COORD_LIMIT,
            avs == crate::model::anns_view(anns@),
            avs.len() == anns@.len(),
            pred == |a: AnnView| exportable(a),
            enc == |a: AnnView| spec_encode(a, img_w as int, img_h as int),
            out@ =~= avs.take(i as int).filter(pred).map_values(enc),
        decreases anns@.len() - i,
    {
        proof {
            reveal(Seq::filter);
            assert(avs.take(i + 1).drop_last() =~= avs.take(i as int));
            assert(avs.take(i + 1).last() == avs[i as int]);
            assert(avs[i as int] == anns@[i as int]@);
        }
        let a = &anns[i];
        let live = match a.state {
            Lifecycle::Rejected => false,
            _ => true,
        };
        let is_box = match a.kind {
            ShapeKind::Box => true,
            ShapeKind::RotatedBox => true,
            _ => false,
        };
        if live && is_box {
            let ghost prev = out@;
            let rec = encode_box(a, img_w, img_h);
            out.push(rec);
            proof {
                let filt = avs.take(i + 1).filter(pred);
                assert(filt =~= avs.take(i as int).filter(pred).push(avs[i as int]));
                assert(out@ =~= prev.push(enc(avs[i as int])));
                assert(filt.map_values(enc) =~= avs.take(i as int).filter(pred).map_values(
                    enc,
                ).push(enc(avs[i as int])));
            }
        }
        i = i + 1;
    }
    proof {
        assert(avs.take(avs.len() as int) =~= avs);
    }
    out
}

/// The text of a whole label file: one line per record, joined by newlines;
/// no records give the empty file.
pub open spec fn label_file_str(recs: Seq<LabelRecord>) -> Seq<char> {
    if recs.len() == 0 {
        Seq::empty()
    } else {
        join_spec(recs.map_values(|r: LabelRecord| label_line_str(r)), '\n')
    }
}

/// Render a whole label file.
pub fn render_label_file(recs: &Vec<LabelRecord>) -> (s: String)
    ensures
        s@ == label_file_str(recs@),
{
    let mut s = String::new();
    let mut i: usize = 0;
    while i < recs.len()
        invariant
            0 <= i <= recs@.len(),
            s@ == label_file_str(recs@.take(i as int)),
        decreases recs@.len() - i,
    {
        proof {
            reveal_strlit("\n");
        }
        if i > 0 {
            s.append("\n");
        }
        let line = render_label_line(&recs[i]);
        s.append(line.as_str());
        proof {
            assert("\n"@ =~= seq!['\n']);
            let prev = recs@.take(i as int).map_values(|r: LabelRecord| label_line_str(r));
            let cur = recs@.take(i + 1).map_values(|r: LabelRecord| label_line_str(r));
            assert(cur =~= prev.push(label_line_str(recs@[i as int])));
            if i > 0 {
                lemma_join_push(prev, label_line_str(recs@[i as int]), '\n');
                assert(s@ =~= join_spec(prev, '\n') + seq!['\n'] + label_line_str(
                    recs@[i as int],
                ));
                assert(s@ =~= join_spec(cur, '\n'));
            } else {
                assert(cur.len() == 1);
                assert(join_spec(cur, '\n') == cur[0]);
            }
            assert(s@ =~= label_file_str(recs@.take(i + 1)));
        }
        i = i + 1;
    }
    proof {
        assert(recs@.take(recs@.len() as int) =~= recs@);
    }
    s
}


/// Saving a live box to the label format and reading it back recovers the
/// class exactly and every geometric quantity to within half a part per
/// million of the image dimension (stated with the difference scaled by
/// `2 * PPM` to stay in integers).  Together with the render/parse
/// contracts, a rendered label file reconstructs each box to this
/// tolerance; Rejected shapes never reach the file at all (see
/// [`records_of`]).
pub proof fn lemma_label_round_trip(a: AnnView, img_w: i64, img_h: i64)
    requires
        ann_wf(a),
        1 <= img_w <= COORD_LIMIT,
        1 <= img_h <= COORD_LIMIT,
        1 <= a.class_id,
        0 <= a.x,
        0 <= a.y,
        0 <= a.width,
        0 <= a.height,
        a.x + a.width <= img_w,
        a.y + a.height <= img_h,
    ensures
        ({
            let m = PPM as int;
            let rec = spec_encode(a, img_w as int, img_h as int);
            let dec = spec_decode(rec, img_w as int, img_h as int);
            let cxb = spec_from_ppm(rec.cx_ppm as int, img_w as int);
            let cyb = spec_from_ppm(rec.cy_ppm as int, img_h as int);
            let wb = spec_from_ppm(rec.w_ppm as int, img_w as int);
            let hb = spec_from_ppm(rec.h_ppm as int, img_h as int);
            &&& dec.4 == a.class_id
            &&& -(img_w + 3 * m) <= 2 * m * (cxb - (a.x + a.width / 2)) <= img_w + 3 * m
            &&& -(img_h + 3 * m) <= 2 * m * (cyb - (a.y + a.height / 2)) <= img_h + 3 * m
            &&& -(img_w + 3 * m) <= 2 * m * (wb - a.width) <= img_w + 3 * m
            &&& -(img_h + 3 * m) <= 2 * m * (hb - a.height) <= img_h + 3 * m
            &&& dec.2 == spec_clamp_coord(wb)
            &&& dec.3 == spec_clamp_coord(hb)
            &&& dec.0 == spec_clamp_coord(
                spec_clamp_coord(cxb) as int - spec_clamp_coord(wb) as int / 2,
            )
            &&& dec.1 == spec_clamp_coord(
                spec_clamp_coord(cyb) as int - spec_clamp_coord(hb) as int / 2,
            )
        }),
{
    let rec = spec_encode(a, img_w as int, img_h as int);
    assert(rec.class0 == a.class_id - 1);
    assert(spec_clamp(rec.class0 as int, -CLASS_LIMIT, CLASS_LIMIT - 1) == a.class_id - 1);
    let cx = a.x + a.width / 2;
    let cy = a.y + a.height / 2;
    vstd::arithmetic::div_mod::lemma_fundamental_div_mod(a.width as int, 2);
    vstd::arithmetic::div_mod::lemma_fundamental_div_mod(a.height as int, 2);
    assert(0 <= cx <= img_w);
    assert(0 <= cy <= img_h);
    lemma_ppm_round_trip(cx, img_w as int);
    lemma_ppm_round_trip(cy, img_h as int);
    lemma_ppm_round_trip(a.width as int, img_w as int);
    lemma_ppm_round_trip(a.height as int, img_h as int);
}

/// The loaded pairs of a line list, walked from line number `idx`: one
/// `(id, record)` per line whose record parses and whose id
/// `next_id_start + line number` still fits the id space, in line order;
/// every other line contributes nothing.
pub open spec fn spec_loaded_pairs(lines: Seq<Seq<char>>, idx: int, start: i64) -> Seq<
    (i64, LabelRecord),
>
    decreases lines.len(),
{
    if lines.len() == 0 {
        Seq::empty()
    } else {
        let rest = spec_loaded_pairs(lines.subrange(1, lines.len() as int), idx + 1, start);
        if 0 <= idx < crate::model::ID_LIMIT - start && spec_parse_label_line(lines[0]) is Some {
            seq![((start + idx) as i64, spec_parse_label_line(lines[0])->0)] + rest
        } else {
            rest
        }
    }
}

/// Load the shapes of a label file: one Pending box per line whose record
/// parses (see [`spec_parse_label_line`]), in line order, decoded against
/// the image dimensions by [`spec_decode`], with ids counting up from
/// `next_id_start` by line number.  Malformed lines, and lines whose id
/// would leave the id space, are skipped.
pub fn load_yolo_annotations(text: &str, img_w: i64, img_h: i64, next_id_start: i64) -> (r: Vec<
    Annotation,
>)
    requires
        1 <= img_w <= COORD_LIMIT,
        1 <= img_h <= COORD_LIMIT,
        0 < next_id_start < crate::model::ID_LIMIT,
    ensures
        ({
            let pairs = spec_loaded_pairs(split_spec(text@, '\n'), 0, next_id_start);
            &&& r@.len() == pairs.len()
            &&& forall|k: int|
                0 <= k < pairs.len() ==> ((#[trigger] r@[k]@).x, r@[k]@.y, r@[k]@.width,
                r@[k]@.height, r@[k]@.class_id) == spec_decode(
                    pairs[k].1,
                    img_w as int,
                    img_h as int,
                ) && r@[k]@.id == pairs[k].0
        }),
        forall|i: int| 0 <= i < r@.len() ==> ann_wf(#[trigger] r@[i]@),
        forall|i: int|
            0 <= i < r@.len() ==> (#[trigger] r@[i]@).state == Lifecycle::Pending && r@[i]@.kind
                == ShapeKind::Box && !r@[i]@.selected && r@[i]@.rotation == 0
                && r@[i]@.vertices.len() == 0,
        forall|i: int, j: int|
            #![trigger r@[i]@.id, r@[j]@.id]
            0 <= i < j < r@.len() ==> r@[i]@.id != r@[j]@.id,
        forall|i: int| 0 <= i < r@.len() ==> next_id_start <= #[trigger] r@[i]@.id,
        text@.len() == 0 ==> r@.len() == 0,
{
    let mut out: Vec<Annotation> = Vec::new();
    if text.unicode_len() == 0 {
        proof {
            lemma_empty_text_loads_nothing(text@, next_id_start);
        }
        return out;
    }
    let lines = split_char(text, '\n');
    let ghost line_views = lines@.map_values(|t: String| t@);
    let ghost all_pairs = spec_loaded_pairs(line_views, 0, next_id_start);
    let ghost mut pairs: Seq<(i64, LabelRecord)> = Seq::empty();
    proof {
        assert(line_views.subrange(0, line_views.len() as int) =~= line_views);
    }
    let mut idx: usize = 0;
    while idx < lines.len()
        invariant
            0 <= idx <= lines@.len(),
            1 <= img_w <= COORD_LIMIT,
            1 <= img_h <= COORD_LIMIT,
            0 < next_id_start < crate::model::ID_LIMIT,
            line_views == lines@.map_values(|t: String| t@),
            line_views.len() == lines@.len(),
            all_pairs == spec_loaded_pairs(line_views, 0, next_id_start),
            all_pairs =~= pairs + spec_loaded_pairs(
                line_views.subrange(idx as int, line_views.len() as int),
                idx as int,
                next_id_start,
            ),
            out@.len() == pairs.len(),
            forall|k: int|
                0 <= k < pairs.len() ==> ((#[trigger] out@[k]@).x, out@[k]@.y, out@[k]@.width,
                out@[k]@.height, out@[k]@.class_id) == spec_decode(
                    pairs[k].1,
                    img_w as int,
                    img_h as int,
                ) && out@[k]@.id == pairs[k].0,
            forall|i: int| 0 <= i < out@.len() ==> ann_wf(#[trigger] out@[i]@),
            forall|i: int|
                0 <= i < out@.len() ==> (#[trigger] out@[i]@).state == Lifecycle::Pending
                    && out@[i]@.kind == ShapeKind::Box && !out@[i]@.selected && out@[i]@.rotation
                    == 0 && out@[i]@.vertices.len() == 0,
            forall|i: int|
                0 <= i < out@.len() ==> next_id_start <= #[trigger] out@[i]@.id && out@[i]@.id
                    < next_id_start + idx,
            forall|i: int, j: int|
                #![trigger out@[i]@.id, out@[j]@.id]
                0 <= i < j < out@.len() ==> out@[i]@.id != out@[j]@.id,
        decreases lines@.len() - idx,
    {
        let ghost prev = out@;
        let ghost suffix = line_views.subrange(idx as int, line_views.len() as int);
        proof {
            assert(suffix[0] == line_views[idx as int]);
            assert(suffix.subrange(1, suffix.len() as int) =~= line_views.subrange(
                idx + 1,
                line_views.len() as int,
            ));
        }
        let headroom = (crate::model::ID_LIMIT - next_id_start) as u128;
        if (idx as u128) < headroom {
            match parse_label_line(lines[idx].as_str()) {
                Some(rec) => {
                    let id = next_id_start + idx as i64;
                    let ann = record_to_annotation(&rec, img_w, img_h, id);
                    out.push(ann);
                    proof {
                        assert(forall|i: int|
                            0 <= i < prev.len() ==> out@[i] == #[trigger] prev[i]);
                        pairs = pairs.push((id, rec));
                    }
                },
                None => {},
            }
        }
        proof {
            assert(line_views[idx as int] == lines@[idx as int]@);
        }
        idx = idx + 1;
    }
    proof {
        assert(line_views.subrange(line_views.len() as int, line_views.len() as int) =~= Seq::<
            Seq<char>,
        >::empty());
        assert(all_pairs =~= pairs);
    }
    out
}

/// Empty text loads nothing: its single empty line has no record.
proof fn lemma_empty_text_loads_nothing(text: Seq<char>, start: i64)
    requires
        text.len() == 0,
        0 < start < crate::model::ID_LIMIT,
    ensures
        spec_loaded_pairs(split_spec(text, '\n'), 0, start) =~= Seq::<(i64, LabelRecord)>::empty(),
{
    crate::numfmt::lemma_char_pos_none(text, '\n');
    assert(split_spec(text, '\n') =~= seq![text]);
    crate::numfmt::lemma_char_pos_none(text, ' ');
    assert(split_spec(text, ' ') =~= seq![text]);
    let pred = |t: Seq<char>| t.len() > 0;
    reveal(Seq::filter);
    assert(seq![text].drop_last() =~= Seq::<Seq<char>>::empty());
    assert(Seq::<Seq<char>>::empty().filter(pred) =~= Seq::<Seq<char>>::empty());
    assert(seq![text].last() == text);
    assert(!pred(text));
    assert(seq![text].filter(pred) =~= Seq::<Seq<char>>::empty());
    assert(split_spec(text, ' ').filter(pred) =~= Seq::<Seq<char>>::empty());
    assert(spec_parse_label_line(text) is None);
    let lines = split_spec(text, '\n');
    assert(lines.subrange(1, 1) =~= Seq::<Seq<char>>::empty());
    assert(spec_loaded_pairs(lines.subrange(1, 1), 1, start) =~= Seq::<(i64, LabelRecord)>::empty());
}

} // verus!