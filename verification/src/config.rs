//! Application configuration: appearance, annotation modes, dataset
//! behavior, class file location and export defaults, with the recent-
//! dataset bookkeeping.

use vstd::prelude::*;

verus! {

/// Appearance settings of the front end.
pub struct AppearanceConfig {
    pub theme: String,
    pub sidebar_width: i64,
    pub show_left_sidebar: bool,
    pub show_right_sidebar: bool,
}

/// Which annotation tools are enabled.
pub struct AnnotationModesConfig {
    pub enable_points: bool,
    pub enable_bboxes: bool,
    pub enable_polygons: bool,
}

/// Dataset behavior: traversal order, auto-save cadence, recent datasets.
pub struct DatasetConfig {
    pub randomize_order: bool,
    pub auto_save_interval_seconds: u64,
    pub recent_datasets: Vec<String>,
}

/// Where the class configuration file lives, if pinned.
pub struct ClassesConfig {
    pub config_file: Option<String>,
}

/// Export defaults.
pub struct ExportConfig {
    pub default_format: String,
    pub coco_category_start_id: i64,
}

/// The whole application configuration.
pub struct AppConfig {
    pub appearance: AppearanceConfig,
    pub annotation_modes: AnnotationModesConfig,
    pub dataset: DatasetConfig,
    pub classes: ClassesConfig,
    pub export: ExportConfig,
}

impl Default for AppearanceConfig {
    /// Dark theme, a 250-unit sidebar, left sidebar shown.
    fn default() -> (r: AppearanceConfig)
        ensures
            r.theme@ == "dark"@,
            r.sidebar_width == 250,
            r.show_left_sidebar,
            !r.show_right_sidebar,
    {
        AppearanceConfig {
            theme: "dark".to_owned(),
            sidebar_width: 250,
            show_left_sidebar: true,
            show_right_sidebar: false,
        }
    }
}

impl Default for AnnotationModesConfig {
    /// Every tool enabled.
    fn default() -> (r: AnnotationModesConfig)
        ensures
            r.enable_points && r.enable_bboxes && r.enable_polygons,
    {
        AnnotationModesConfig { enable_points: true, enable_bboxes: true, enable_polygons: true }
    }
}

impl Default for DatasetConfig {
    /// In-order traversal, an auto-save every five seconds, no recent
    /// datasets.
    fn default() -> (r: DatasetConfig)
        ensures
            !r.randomize_order,
            r.auto_save_interval_seconds == 5,
            r.recent_datasets@.len() == 0,
    {
        DatasetConfig {
            randomize_order: false,
            auto_save_interval_seconds: 5,
            recent_datasets: Vec::new(),
        }
    }
}

impl Default for ClassesConfig {
    /// No pinned class file.
    fn default() -> (r: ClassesConfig)
        ensures
            r.config_file is None,
    {
        ClassesConfig { config_file: None }
    }
}

impl Default for ExportConfig {
    /// Label-format export, category ids starting at one.
    fn default() -> (r: ExportConfig)
        ensures
            r.default_format@ == "yolo"@,
            r.coco_category_start_id == 1,
    {
        ExportConfig { default_format: "yolo".to_owned(), coco_category_start_id: 1 }
    }
}

impl Default for AppConfig {
    /// Every section at its defaults.
    fn default() -> (r: AppConfig)
        ensures
            r.appearance.theme@ == "dark"@,
            r.dataset.auto_save_interval_seconds == 5,
            r.export.coco_category_start_id == 1,
    {
        AppConfig {
            appearance: AppearanceConfig::default(),
            annotation_modes: AnnotationModesConfig::default(),
            dataset: DatasetConfig::default(),
            classes: ClassesConfig::default(),
            export: ExportConfig::default(),
        }
    }
}

/// How many recent datasets are remembered.
pub const MAX_RECENT: usize = 10;

/// The views of a list of strings.
pub open spec fn string_views(v: Seq<String>) -> Seq<Seq<char>> {
    v.map_values(|s: String| s@)
}

/// Record a dataset as most recently used: it moves to the front, an
/// earlier occurrence is dropped, and only the newest `MAX_RECENT` survive.
pub fn add_recent_dataset(config: &mut AppConfig, path: String)
    ensures
        final(config).appearance == old(config).appearance,
        final(config).annotation_modes == old(config).annotation_modes,
        final(config).classes == old(config).classes,
        final(config).export == old(config).export,
        final(config).dataset.randomize_order == old(config).dataset.randomize_order,
        final(config).dataset.auto_save_interval_seconds == old(
            config,
        ).dataset.auto_save_interval_seconds,
        ({
            let kept = string_views(old(config).dataset.recent_datasets@).filter(
                |s: Seq<char>| s != path@,
            );
            let full = seq![path@] + kept;
            &&& string_views(final(config).dataset.recent_datasets@) =~= if full.len() <= MAX_RECENT {
                full
            } else {
                full.take(MAX_RECENT as int)
            }
        }),
{
    let ghost pred = |s: Seq<char>| s != path@;
    let ghost old_views = string_views(config.dataset.recent_datasets@);
    let mut out: Vec<String> = Vec::new();
    out.push(path.clone());
    let mut i: usize = 0;
    let n = config.dataset.recent_datasets.len();
    proof {
        reveal(Seq::filter);
        assert(string_views(out@) =~= seq![path@] + old_views.take(0).filter(pred));
    }
    while i < n
        invariant
            0 <= i <= n,
            n == config.dataset.recent_datasets@.len(),
            old_views == string_views(config.dataset.recent_datasets@),
            old_views.len() == n,
            pred == |s: Seq<char>| s != path@,
            string_views(out@) =~= seq![path@] + old_views.take(i as int).filter(pred),
        decreases n - i,
    {
        proof {
            reveal(Seq::filter);
            assert(old_views.take(i + 1).drop_last() =~= old_views.take(i as int));
            assert(old_views.take(i + 1).last() == old_views[i as int]);
            assert(old_views[i as int] == config.dataset.recent_datasets@[i as int]@);
        }
        let entry = &config.dataset.recent_datasets[i];
        if !entry.eq(&path) {
            let ghost prev = string_views(out@);
            out.push(entry.clone());
            proof {
                assert(string_views(out@) =~= prev.push(old_views[i as int]));
            }
        }
        i = i + 1;
    }
    proof {
        assert(old_views.take(n as int) =~= old_views);
    }
    let ghost before_trunc = string_views(out@);
    if out.len() > MAX_RECENT {
        out.truncate(MAX_RECENT);
        proof {
            assert(string_views(out@) =~= before_trunc.take(MAX_RECENT as int));
        }
    }
    config.dataset.recent_datasets = out;
}

} // verus!
