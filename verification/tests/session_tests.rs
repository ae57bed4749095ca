use annotator_core::config::{add_recent_dataset, AppConfig};
use annotator_core::export::{CocoDataset, ExportFormat, VocAnnotation};
use annotator_core::model::{Annotation, Lifecycle, ShapeKind, Vertex};
use annotator_core::numfmt::parse_u64;
use annotator_core::session::{
    ann_to_stored, apply_view_state, get_view_state, label_path_for, sizes_close, state_path_for,
    stored_to_annotation, with_extension, DatasetEntry, DatasetState, ViewState,
};

fn entry(image: &str, labels: Option<&str>) -> DatasetEntry {
    DatasetEntry {
        image_path: image.to_owned(),
        labels_path: labels.map(|s| s.to_owned()),
    }
}

#[test]
fn dataset_rejects_empty_entry_list() {
    assert!(DatasetState::from_entries(Vec::new()).is_err());
}

#[test]
fn dataset_caches_start_empty() {
    let ds = DatasetState::from_entries(vec![entry("a.png", None), entry("b.png", None)]).unwrap();
    assert_eq!(ds.entries.len(), 2);
    assert_eq!(ds.current_index, 0);
    assert!(ds.stored_annotations.iter().all(|s| s.is_none()));
    assert!(ds.view_states.iter().all(|s| s.is_none()));
    assert!(ds.completed_frames.iter().all(|c| !c));
}

#[test]
fn navigation_indices_saturate() {
    let mut ds =
        DatasetState::from_entries(vec![entry("a.png", None), entry("b.png", None)]).unwrap();
    assert_eq!(ds.prev_index(), 0);
    assert_eq!(ds.next_index(), 1);
    ds.set_current(1);
    assert_eq!(ds.next_index(), 1);
    assert_eq!(ds.prev_index(), 0);
    assert_eq!(ds.last_index(), 1);
}

#[test]
fn save_current_state_updates_caches_and_global_view() {
    let mut ds = DatasetState::from_entries(vec![entry("a.png", None)]).unwrap();
    let anns = vec![Annotation {
        id: 1,
        kind: ShapeKind::Point,
        x: 5_000,
        y: 5_000,
        width: 0,
        height: 0,
        rotation: 0,
        vertices: Vec::new(),
        class_id: 1,
        state: Lifecycle::Manual,
        selected: true,
    }];
    let view = ViewState { pan_x: 10, pan_y: 20, zoom: 1_500 };
    ds.save_current_state(&anns, view, (640_000, 480_000));
    assert!(ds.stored_annotations[0].is_some());
    assert_eq!(ds.stored_annotations[0].as_ref().unwrap().len(), 1);
    assert_eq!(ds.global_view, Some(view));
    assert_eq!(ds.last_view_image_size, Some((640_000, 480_000)));
    // The global view wins while the image size stays within tolerance.
    assert_eq!(ds.choose_view(0, (640_500, 479_800)), Some(view));
    // A very different size falls back to the per-image cache.
    assert_eq!(ds.choose_view(0, (100_000, 100_000)), Some(view));
}

#[test]
fn choose_view_falls_back_to_reset() {
    let mut ds = DatasetState::from_entries(vec![entry("a.png", None)]).unwrap();
    assert_eq!(ds.choose_view(0, (640_000, 480_000)), None);
    ds.cache_view(0, ViewState { pan_x: 1, pan_y: 2, zoom: 900 });
    assert_eq!(
        ds.choose_view(0, (640_000, 480_000)),
        Some(ViewState { pan_x: 1, pan_y: 2, zoom: 900 })
    );
}

#[test]
fn view_state_normalizes_zoom() {
    let captured = get_view_state(3, 4, 10);
    assert_eq!(captured.zoom, 100, "captured zoom is floored at 0.1");
    let applied = apply_view_state(&ViewState { pan_x: 0, pan_y: 0, zoom: -5 });
    assert_eq!(applied.zoom, 1_000, "invalid zoom normalizes to 1.0");
    assert!(sizes_close((100_000, 100_000), (101_000, 99_500), 2_000));
    assert!(!sizes_close((100_000, 100_000), (103_000, 100_000), 2_000));
}

#[test]
fn toggle_frame_completion_flips() {
    let mut ds = DatasetState::from_entries(vec![entry("a.png", None)]).unwrap();
    assert!(ds.toggle_frame_completion());
    assert!(ds.completed_frames[0]);
    assert!(!ds.toggle_frame_completion());
    assert!(!ds.completed_frames[0]);
}

#[test]
fn repair_caches_restores_slot_counts() {
    let mut ds = DatasetState::from_entries(vec![entry("a.png", None), entry("b.png", None)])
        .unwrap();
    ds.completed_frames.pop();
    ds.repair_caches();
    assert_eq!(ds.completed_frames.len(), 2);
    assert_eq!(ds.stored_annotations.len(), 2);
}

#[test]
fn stored_record_round_trip() {
    let a = Annotation {
        id: 9,
        kind: ShapeKind::Polygon,
        x: 1_000,
        y: 2_000,
        width: 3_000,
        height: 4_000,
        rotation: 0,
        vertices: vec![Vertex { x: 1_000, y: 2_000 }, Vertex { x: 4_000, y: 2_000 }, Vertex {
            x: 4_000,
            y: 6_000,
        }],
        class_id: 2,
        state: Lifecycle::Accepted,
        selected: true,
    };
    let stored = ann_to_stored(&a);
    assert!(!stored.selected, "selection is transient and never persisted");
    assert_eq!(stored.vertices, "1.000,2.000;4.000,2.000;4.000,6.000");
    let back = stored_to_annotation(&stored);
    assert_eq!(back.id, a.id);
    assert_eq!(back.kind, a.kind);
    assert_eq!(back.vertices, a.vertices);
    assert_eq!(back.state, Lifecycle::Accepted);
    assert!(!back.selected);
}

#[test]
fn label_and_state_paths() {
    let e = entry("images/shot.png", None);
    assert_eq!(label_path_for(&e), "images/shot.txt");
    assert_eq!(state_path_for(&e), "images/shot.state.json");
    let pinned = entry("images/shot.png", Some("labels/shot.txt"));
    assert_eq!(label_path_for(&pinned), "labels/shot.txt");
    assert_eq!(with_extension("archive.tar", "gz"), "archive.gz");
    assert_eq!(with_extension("noext", "txt"), "noext.txt");
    assert_eq!(with_extension("dir.v2/noext", "txt"), "dir.v2/noext.txt");
}

#[test]
fn recent_datasets_dedupe_and_cap() {
    let mut cfg = AppConfig::default();
    for i in 0..12 {
        add_recent_dataset(&mut cfg, format!("ds{}", i));
    }
    assert_eq!(cfg.dataset.recent_datasets.len(), 10);
    assert_eq!(cfg.dataset.recent_datasets[0], "ds11");
    add_recent_dataset(&mut cfg, "ds10".to_owned());
    assert_eq!(cfg.dataset.recent_datasets[0], "ds10");
    assert_eq!(
        cfg.dataset.recent_datasets.iter().filter(|s| s.as_str() == "ds10").count(),
        1,
        "re-adding moves the entry instead of duplicating it"
    );
}

#[test]
fn export_format_names() {
    assert_eq!(ExportFormat::CocoJson.name(), "COCO JSON");
    assert_eq!(ExportFormat::PascalVoc.extension(), "xml");
    assert_eq!(ExportFormat::CocoJson.extension(), "json");
}

#[test]
fn voc_document_exact_xml() {
    let mut voc = VocAnnotation::new("img.png".to_owned(), 640, 480);
    voc.add_object("cat".to_owned(), 10, 20, 110, 220);
    let xml = voc.to_xml();
    assert!(xml.starts_with("<?xml version=\"1.0\" encoding=\"UTF-8\"?>\n<annotation>"));
    assert!(xml.contains("<filename>img.png</filename>"));
    assert!(xml.contains("<width>640</width>"));
    assert!(xml.contains("<name>cat</name>"));
    assert!(xml.contains("<xmin>10</xmin>"));
    assert!(xml.contains("<ymax>220</ymax>"));
    assert!(xml.ends_with("</annotation>\n"));
}

#[test]
fn coco_dataset_header_carries_todays_date() {
    let mut coco = CocoDataset::new();
    assert_eq!(coco.info.version, "1.0");
    // The date comes from the clock: check its shape, not its value.
    let parts: Vec<&str> = coco.info.date_created.rsplitn(3, '-').collect();
    assert_eq!(parts.len(), 3, "date is year-month-day");
    let day = parse_u64(parts[0]).expect("day is numeric");
    let month = parse_u64(parts[1]).expect("month is numeric");
    assert!((1..=31).contains(&day));
    assert!((1..=12).contains(&month));
    coco.add_category(1, "cat".to_owned());
    assert_eq!(coco.categories.len(), 1);
    assert_eq!(coco.categories[0].supercategory, "object");
}
