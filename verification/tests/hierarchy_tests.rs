use annotator_core::classes::{ClassConfig, ClassDefinition, HierarchicalClassNode};
use annotator_core::hierarchy::{
    count_leaf_classes, required_hierarchy_depth, validate_and_get_depth, validate_hierarchy,
    HierarchyNavigator,
};

fn leaf(key: u8, id: i64, name: &str) -> HierarchicalClassNode {
    HierarchicalClassNode {
        key,
        label: name.to_owned(),
        children: Vec::new(),
        id: Some(id),
        name: Some(name.to_owned()),
        color: None,
    }
}

fn branch(key: u8, label: &str, children: Vec<HierarchicalClassNode>) -> HierarchicalClassNode {
    HierarchicalClassNode {
        key,
        label: label.to_owned(),
        children,
        id: None,
        name: None,
        color: None,
    }
}

fn two_level_config() -> ClassConfig {
    let animals = branch(1, "Animals", vec![leaf(1, 10, "Cat"), leaf(2, 11, "Dog")]);
    let things = branch(2, "Things", vec![leaf(1, 20, "Car")]);
    ClassConfig { classes: Vec::new(), hierarchy: vec![animals, things] }
}

#[test]
fn test_required_depth() {
    assert_eq!(required_hierarchy_depth(3).unwrap(), 1);
    assert_eq!(required_hierarchy_depth(5).unwrap(), 1);
    assert_eq!(required_hierarchy_depth(6).unwrap(), 2);
    assert_eq!(required_hierarchy_depth(25).unwrap(), 2);
    assert_eq!(required_hierarchy_depth(26).unwrap(), 3);
    assert_eq!(required_hierarchy_depth(125).unwrap(), 3);
    assert!(required_hierarchy_depth(126).is_err());
}

#[test]
fn required_depth_rejects_zero() {
    assert!(required_hierarchy_depth(0).is_err());
}

#[test]
fn navigate_down_to_leaf_resets() {
    let mut nav = HierarchyNavigator::new(two_level_config());
    assert!(nav.is_hierarchical());
    assert!(nav.is_at_root());
    assert_eq!(nav.navigate_down(1), None);
    assert_eq!(nav.current_depth(), 1);
    let got = nav.navigate_down(2);
    assert_eq!(got, Some(11));
    assert!(nav.is_at_root());
}

#[test]
fn navigate_down_ignores_bad_keys() {
    let mut nav = HierarchyNavigator::new(two_level_config());
    assert_eq!(nav.navigate_down(0), None);
    assert_eq!(nav.navigate_down(6), None);
    assert_eq!(nav.current_depth(), 0);
    assert_eq!(nav.navigate_down(5), None);
    assert_eq!(nav.current_depth(), 0);
}

#[test]
fn navigate_up_and_breadcrumb() {
    let mut nav = HierarchyNavigator::new(two_level_config());
    nav.navigate_down(1);
    let crumb = nav.get_breadcrumb();
    assert_eq!(crumb.len(), 1);
    assert_eq!(crumb[0], "Animals");
    nav.navigate_up();
    assert!(nav.is_at_root());
    nav.navigate_up();
    assert!(nav.is_at_root());
}

#[test]
fn level_nodes_and_prompt() {
    let mut nav = HierarchyNavigator::new(two_level_config());
    assert_eq!(nav.max_depth(), 2);
    assert_eq!(nav.get_prompt(), "Select category (1-5)");
    let roots = nav.get_current_level_nodes();
    assert_eq!(roots.len(), 2);
    assert_eq!(roots[0].key, 1);
    assert_eq!(roots[1].label, "Things");
    nav.navigate_down(2);
    let level = nav.get_current_level_nodes();
    assert_eq!(level.len(), 1);
    assert_eq!(level[0].id, Some(20));
    assert_eq!(nav.get_prompt(), "Select subcategory (1-5)");
}

#[test]
fn validate_and_count() {
    let cfg = two_level_config();
    assert!(validate_hierarchy(&cfg.hierarchy).is_ok());
    assert_eq!(validate_and_get_depth(&cfg.hierarchy), 2);
    assert_eq!(count_leaf_classes(&cfg.hierarchy), 3);
    let bad = vec![leaf(7, 1, "BadKey")];
    assert!(validate_hierarchy(&bad).is_err());
}

#[test]
fn flatten_and_lookups() {
    let cfg = two_level_config();
    let flat = annotator_core::classes::flatten_hierarchy(&cfg.hierarchy);
    assert_eq!(flat.len(), 3);
    assert_eq!(flat[0].id, 10);
    assert_eq!(flat[0].name, "Cat");
    assert_eq!(flat[2].id, 20);
    let config = ClassConfig { classes: flat, hierarchy: Vec::new() };
    assert_eq!(annotator_core::classes::get_class_name(&config, 11), "Dog");
    assert_eq!(annotator_core::classes::get_class_name(&config, 99), "Class 99");
    assert_eq!(annotator_core::classes::get_class_color(&config, 11), None);
    let with_color = ClassConfig {
        classes: vec![ClassDefinition {
            id: 1,
            name: "Red".to_owned(),
            color: Some("#ff0000".to_owned()),
            shortcut: None,
        }],
        hierarchy: Vec::new(),
    };
    assert_eq!(
        annotator_core::classes::get_class_color(&with_color, 1),
        Some("#ff0000".to_owned())
    );
}
