use annotator_core::autoresize::{refine_box, GradientRaster};
use annotator_core::codec::{fmt_vertices, generate_path_commands, parse_vertices};
use annotator_core::geometry::{polygon_bbox, Rect};
use annotator_core::labels::{
    encode_box, encode_label_records, parse_label_line, render_label_file, render_label_line,
    load_yolo_annotations, record_to_annotation, LabelRecord,
};
use annotator_core::model::{Annotation, Lifecycle, ShapeKind, Vertex};
use annotator_core::numfmt::{fmt_i64, fmt_scaled, fmt_u64, parse_i64, parse_scaled, parse_u64};

fn box_ann(id: i64, x: i64, y: i64, w: i64, h: i64, class_id: i64, state: Lifecycle) -> Annotation {
    Annotation {
        id,
        kind: ShapeKind::Box,
        x,
        y,
        width: w,
        height: h,
        rotation: 0,
        vertices: Vec::new(),
        class_id,
        state,
        selected: false,
    }
}

#[test]
fn number_formatting_round_trips() {
    assert_eq!(fmt_u64(0), "0");
    assert_eq!(fmt_u64(1234), "1234");
    assert_eq!(fmt_i64(-56), "-56");
    assert_eq!(parse_u64("1234"), Some(1234));
    assert_eq!(parse_u64(""), None);
    assert_eq!(parse_u64("12a4"), None);
    assert_eq!(parse_i64("-56"), Some(-56));
    assert_eq!(parse_i64("56"), Some(56));
    assert_eq!(parse_i64("-"), None);
}

#[test]
fn scaled_formatting_round_trips() {
    assert_eq!(fmt_scaled(12_345, 3), "12.345");
    assert_eq!(fmt_scaled(-1_500, 3), "-1.500");
    assert_eq!(fmt_scaled(500_000, 6), "0.500000");
    assert_eq!(parse_scaled("12.345", 3), Some(12_345));
    assert_eq!(parse_scaled("-1.5", 3), Some(-1_500));
    assert_eq!(parse_scaled("0.5", 6), Some(500_000));
    assert_eq!(parse_scaled("2", 3), Some(2_000));
    assert_eq!(parse_scaled(".25", 2), Some(25));
    assert_eq!(parse_scaled("1.2.3", 3), None);
    assert_eq!(parse_scaled("abc", 3), None);
}

#[test]
fn vertices_round_trip() {
    let vs = vec![
        Vertex { x: 1_000, y: 2_500 },
        Vertex { x: -3_000, y: 0 },
        Vertex { x: 7_125, y: 9_001 },
    ];
    let s = fmt_vertices(&vs);
    assert_eq!(s, "1.000,2.500;-3.000,0.000;7.125,9.001");
    let back = parse_vertices(&s);
    assert_eq!(back, vs);
}

#[test]
fn parse_vertices_drops_malformed_pairs() {
    let back = parse_vertices("1.0,2.0;;bogus;3.0,4.0");
    assert_eq!(back, vec![Vertex { x: 1_000, y: 2_000 }, Vertex { x: 3_000, y: 4_000 }]);
}

#[test]
fn path_commands_exact() {
    let vs = vec![
        Vertex { x: 1_000, y: 2_000 },
        Vertex { x: 3_000, y: 4_000 },
        Vertex { x: 5_000, y: 6_000 },
    ];
    let closed = generate_path_commands(&vs, true);
    assert_eq!(closed, "M 1.000 2.000 L 3.000 4.000 L 5.000 6.000 Z");
    let open_path = generate_path_commands(&vs, false);
    assert_eq!(open_path, "M 1.000 2.000 L 3.000 4.000 L 5.000 6.000");
    assert_eq!(generate_path_commands(&Vec::new(), true), "");
}

#[test]
fn polygon_bbox_is_min_max() {
    let vs = vec![
        Vertex { x: 5_000, y: 9_000 },
        Vertex { x: 1_000, y: 2_000 },
        Vertex { x: 3_000, y: 12_000 },
    ];
    let r = polygon_bbox(&vs);
    assert_eq!(r, Rect { x: 1_000, y: 2_000, width: 4_000, height: 10_000 });
}

#[test]
fn label_line_exact_and_round_trip() {
    // A 100x100-unit image with a box from (25,25) to (75,75), class 3.
    let a = box_ann(1, 25_000, 25_000, 50_000, 50_000, 3, Lifecycle::Manual);
    let rec = encode_box(&a, 100_000, 100_000);
    assert_eq!(rec.class0, 2);
    assert_eq!(rec.cx_ppm, 500_000);
    assert_eq!(rec.cy_ppm, 500_000);
    assert_eq!(rec.w_ppm, 500_000);
    assert_eq!(rec.h_ppm, 500_000);
    let line = render_label_line(&rec);
    assert_eq!(line, "2 0.500000 0.500000 0.500000 0.500000");
    let back = parse_label_line(&line).unwrap();
    assert_eq!(back, rec);
    let ann = record_to_annotation(&back, 100_000, 100_000, 42);
    assert_eq!(ann.class_id, 3);
    assert_eq!(ann.state, Lifecycle::Pending);
    assert_eq!(ann.width, 50_000);
    assert_eq!(ann.height, 50_000);
    assert_eq!(ann.x, 25_000);
    assert_eq!(ann.y, 25_000);
}

#[test]
fn label_round_trip_tolerance() {
    // An awkward box in a 640x480 image: the round trip must stay within
    // half a part per million of the image size, plus rounding slack.
    let (w, h) = (640_000_i64, 480_000_i64);
    let a = box_ann(1, 123_457, 77_123, 99_991, 55_555, 2, Lifecycle::Manual);
    let rec = encode_box(&a, w, h);
    let line = render_label_line(&rec);
    let back = parse_label_line(&line).unwrap();
    let ann = record_to_annotation(&back, w, h, 1);
    let tol_w = w / 2_000_000 + 2;
    let tol_h = h / 2_000_000 + 2;
    assert!((ann.width - a.width).abs() <= tol_w);
    assert!((ann.height - a.height).abs() <= tol_h);
    assert!((ann.x - a.x).abs() <= 2 * tol_w + 1);
    assert!((ann.y - a.y).abs() <= 2 * tol_h + 1);
}

#[test]
fn rejected_shapes_never_reach_label_file() {
    let live = box_ann(1, 10_000, 10_000, 20_000, 20_000, 1, Lifecycle::Manual);
    let dead = box_ann(2, 30_000, 30_000, 20_000, 20_000, 2, Lifecycle::Rejected);
    let point = Annotation { kind: ShapeKind::Point, ..box_ann(3, 0, 0, 0, 0, 1, Lifecycle::Manual) };
    let anns = vec![live, dead, point];
    let recs = encode_label_records(&anns, 100_000, 100_000);
    assert_eq!(recs.len(), 1, "only the live box is exported");
    assert_eq!(recs[0].class0, 0);
}

#[test]
fn label_file_loads_back() {
    let a = box_ann(1, 10_000, 20_000, 30_000, 40_000, 1, Lifecycle::Manual);
    let b = box_ann(2, 50_000, 50_000, 20_000, 20_000, 5, Lifecycle::Accepted);
    let anns = vec![a, b];
    let recs = encode_label_records(&anns, 100_000, 100_000);
    let text = render_label_file(&recs);
    assert_eq!(text.lines().count(), 2);
    let loaded = load_yolo_annotations(&text, 100_000, 100_000, 1000);
    assert_eq!(loaded.len(), 2);
    assert_eq!(loaded[0].id, 1000);
    assert_eq!(loaded[1].id, 1001);
    assert_eq!(loaded[0].class_id, 1);
    assert_eq!(loaded[1].class_id, 5);
    assert_eq!(loaded[0].state, Lifecycle::Pending);
    assert!((loaded[1].width - 20_000).abs() <= 2);
}

#[test]
fn label_parse_rejects_wrong_field_count() {
    assert!(parse_label_line("1 0.5 0.5 0.5").is_none());
    assert!(parse_label_line("").is_none());
    assert!(parse_label_line("1 0.5 0.5 0.5 0.5 0.5").is_none());
    // Unreadable fields fall back to the centered empty default.
    let rec = parse_label_line("x y y y y").unwrap();
    assert_eq!(rec, LabelRecord { class0: 0, cx_ppm: 500_000, cy_ppm: 500_000, w_ppm: 0, h_ppm: 0 });
}

#[test]
fn auto_resize_keeps_degenerate_result_unchanged() {
    // A flat raster has no gradient anywhere: every edge keeps its place,
    // and the refinement hands the box back untouched.
    let g = GradientRaster { values: vec![0u32; 100 * 100], width: 100, height: 100 };
    let bbox = Rect { x: 20_000, y: 20_000, width: 30_000, height: 30_000 };
    let out = refine_box(&g, bbox, 100_000, 100_000);
    assert_eq!(out, bbox);
}

#[test]
fn auto_resize_snaps_to_strong_edges_within_bounds() {
    // A bright vertical band: columns 10 and 40 carry strong gradients.
    let (w, h) = (100usize, 100usize);
    let mut values = vec![0u32; w * h];
    for y in 0..h {
        values[y * w + 10] = 200_000;
        values[y * w + 40] = 200_000;
        values[y * w + 25] = 0;
    }
    for x in 0..w {
        values[20 * w + x] = values[20 * w + x].max(200_000);
        values[60 * w + x] = values[60 * w + x].max(200_000);
    }
    let g = GradientRaster { values, width: w, height: h };
    let bbox = Rect { x: 12_000, y: 22_000, width: 26_000, height: 36_000 };
    let out = refine_box(&g, bbox, 100_000, 100_000);
    assert!(out.x >= 0 && out.y >= 0);
    assert!(out.x + out.width <= 100_000);
    assert!(out.y + out.height <= 100_000);
}
