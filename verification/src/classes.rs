//! Class definitions: the flat class list, the hierarchical class tree, and
//! lookups by class id.

use vstd::prelude::*;

verus! {

use crate::numfmt::{fmt_i64, int_str};

/// One class: id, display name, optional color and keyboard shortcut.
pub struct ClassDefinition {
    pub id: i64,
    pub name: String,
    pub color: Option<String>,
    pub shortcut: Option<String>,
}

/// One node of the hierarchical class tree: a key in 1..=5, a label, child
/// nodes, and — on leaves — the class id, name and color.
pub struct HierarchicalClassNode {
    pub key: u8,
    pub label: String,
    pub children: Vec<HierarchicalClassNode>,
    pub id: Option<i64>,
    pub name: Option<String>,
    pub color: Option<String>,
}

/// The class configuration: the flat list and the optional hierarchy.
pub struct ClassConfig {
    pub classes: Vec<ClassDefinition>,
    pub hierarchy: Vec<HierarchicalClassNode>,
}

/// An owned copy of an optional string, equal in value.
pub fn clone_opt_string(o: &Option<String>) -> (r: Option<String>)
    ensures
        r == *o,
{
    match o {
        None => None,
        Some(s) => Some(s.clone()),
    }
}

/// The flat class entries a hierarchy describes: one entry per node that
/// carries both an id and a name, the node's own entry before its
/// children's, children before later siblings.  Shortcuts are left empty —
/// hierarchy navigation replaces them.
pub open spec fn spec_flatten(nodes: Seq<HierarchicalClassNode>) -> Seq<(i64, Seq<char>, Option<
    String,
>)>
    decreases nodes,
{
    if nodes.len() == 0 {
        Seq::empty()
    } else {
        let n0 = nodes[0];
        let own: Seq<(i64, Seq<char>, Option<String>)> = if n0.id is Some && n0.name is Some {
            seq![(n0.id->0, n0.name->0@, n0.color)]
        } else {
            Seq::empty()
        };
        own + spec_flatten(n0.children@) + spec_flatten(nodes.subrange(1, nodes.len() as int))
    }
}

/// Flattening distributes over concatenation.
pub proof fn lemma_flatten_concat(a: Seq<HierarchicalClassNode>, b: Seq<HierarchicalClassNode>)
    ensures
        spec_flatten(a + b) =~= spec_flatten(a) + spec_flatten(b),
    decreases a,
{
    if a.len() == 0 {
        assert(a + b =~= b);
    } else {
        let s = a + b;
        assert(s[0] == a[0]);
        assert(s.subrange(1, s.len() as int) =~= a.subrange(1, a.len() as int) + b);
        lemma_flatten_concat(a.subrange(1, a.len() as int), b);
    }
}

/// Flatten a hierarchy into a list of class definitions.
pub fn flatten_hierarchy(nodes: &Vec<HierarchicalClassNode>) -> (r: Vec<ClassDefinition>)
    ensures
        r@.len() == spec_flatten(nodes@).len(),
        forall|i: int|
            0 <= i < r@.len() ==> ((#[trigger] r@[i]).id, r@[i].name@, r@[i].color)
                == spec_flatten(nodes@)[i] && r@[i].shortcut is None,
    decreases nodes@,
{
    let mut out: Vec<ClassDefinition> = Vec::new();
    let mut i: usize = 0;
    while i < nodes.len()
        invariant
            0 <= i <= nodes@.len(),
            out@.len() == spec_flatten(nodes@.take(i as int)).len(),
            forall|k: int|
                0 <= k < out@.len() ==> ((#[trigger] out@[k]).id, out@[k].name@, out@[k].color)
                    == spec_flatten(nodes@.take(i as int))[k] && out@[k].shortcut is None,
        decreases nodes@.len() - i,
    {
        let node = &nodes[i];
        let ghost prefix = spec_flatten(nodes@.take(i as int));
        match (node.id, &node.name) {
            (Some(id), Some(name)) => {
                out.push(
                    ClassDefinition {
                        id,
                        name: name.clone(),
                        color: clone_opt_string(&node.color),
                        shortcut: None,
                    },
                );
            },
            _ => {},
        }
        let mut sub = flatten_hierarchy(&node.children);
        out.append(&mut sub);
        proof {
            let single = seq![nodes@[i as int]];
            assert(nodes@.take(i + 1) =~= nodes@.take(i as int) + single);
            lemma_flatten_concat(nodes@.take(i as int), single);
            assert(single.subrange(1, 1) =~= Seq::<HierarchicalClassNode>::empty());
            let n0 = single[0];
            let ghost own: Seq<(i64, Seq<char>, Option<String>)> = if n0.id is Some
                && n0.name is Some {
                seq![(n0.id->0, n0.name->0@, n0.color)]
            } else {
                Seq::empty()
            };
            reveal_with_fuel(spec_flatten, 2);
            assert(spec_flatten(Seq::<HierarchicalClassNode>::empty()) =~= Seq::<(
                i64,
                Seq<char>,
                Option<String>,
            )>::empty());
            assert(spec_flatten(single) =~= own + spec_flatten(n0.children@));
        }
        i = i + 1;
    }
    proof {
        assert(nodes@.take(nodes@.len() as int) =~= nodes@);
    }
    out
}

/// The name of the first class with the given id, if any.
pub open spec fn spec_class_name(classes: Seq<ClassDefinition>, class_id: i64) -> Option<Seq<char>>
    decreases classes.len(),
{
    if classes.len() == 0 {
        None
    } else if classes[0].id == class_id {
        Some(classes[0].name@)
    } else {
        spec_class_name(classes.subrange(1, classes.len() as int), class_id)
    }
}

/// The color of the first class with the given id, if it has one.
pub open spec fn spec_class_color(classes: Seq<ClassDefinition>, class_id: i64) -> Option<
    Seq<char>,
>
    decreases classes.len(),
{
    if classes.len() == 0 {
        None
    } else if classes[0].id == class_id {
        match &classes[0].color {
            Some(c) => Some(c@),
            None => None,
        }
    } else {
        spec_class_color(classes.subrange(1, classes.len() as int), class_id)
    }
}

/// The class name to display for an id: the configured name, or a
/// `Class <id>` placeholder when the id is unknown.
pub fn get_class_name(config: &ClassConfig, class_id: i64) -> (r: String)
    ensures
        match spec_class_name(config.classes@, class_id) {
            Some(name) => r@ == name,
            None => r@ == "Class "@ + int_str(class_id as int),
        },
{
    let n = config.classes.len();
    proof {
        assert(config.classes@.subrange(0, n as int) =~= config.classes@);
    }
    let mut i: usize = 0;
    while i < n
        invariant
            0 <= i <= n,
            n == config.classes@.len(),
            spec_class_name(config.classes@, class_id) == spec_class_name(
                config.classes@.subrange(i as int, n as int),
                class_id,
            ),
        decreases n - i,
    {
        proof {
            let rest = config.classes@.subrange(i as int, n as int);
            assert(rest[0] == config.classes@[i as int]);
            assert(rest.subrange(1, rest.len() as int) =~= config.classes@.subrange(
                i + 1,
                n as int,
            ));
        }
        if config.classes[i].id == class_id {
            return config.classes[i].name.clone();
        }
        i = i + 1;
    }
    proof {
        assert(config.classes@.subrange(n as int, n as int) =~= Seq::<ClassDefinition>::empty());
        reveal_strlit("Class ");
    }
    let mut s = "Class ".to_owned();
    let num = fmt_i64(class_id);
    s.append(num.as_str());
    s
}

/// The class color for an id, or nothing when the id is unknown or carries
/// no color.
pub fn get_class_color(config: &ClassConfig, class_id: i64) -> (r: Option<String>)
    ensures
        match spec_class_color(config.classes@, class_id) {
            Some(color) => r is Some && r->0@ == color,
            None => r is None,
        },
{
    let n = config.classes.len();
    proof {
        assert(config.classes@.subrange(0, n as int) =~= config.classes@);
    }
    let mut i: usize = 0;
    while i < n
        invariant
            0 <= i <= n,
            n == config.classes@.len(),
            spec_class_color(config.classes@, class_id) == spec_class_color(
                config.classes@.subrange(i as int, n as int),
                class_id,
            ),
        decreases n - i,
    {
        proof {
            let rest = config.classes@.subrange(i as int, n as int);
            assert(rest[0] == config.classes@[i as int]);
            assert(rest.subrange(1, rest.len() as int) =~= config.classes@.subrange(
                i + 1,
                n as int,
            ));
        }
        if config.classes[i].id == class_id {
            return clone_opt_string(&config.classes[i].color);
        }
        i = i + 1;
    }
    proof {
        assert(config.classes@.subrange(n as int, n as int) =~= Seq::<ClassDefinition>::empty());
    }
    None
}

fn default_class(id: i64, name: &str, color: &str, shortcut: &str) -> (r: ClassDefinition)
    ensures
        r.id == id,
        r.name@ == name@,
        r.color is Some && r.color->0@ == color@,
        r.shortcut is Some && r.shortcut->0@ == shortcut@,
{
    ClassDefinition {
        id,
        name: name.to_owned(),
        color: Some(color.to_owned()),
        shortcut: Some(shortcut.to_owned()),
    }
}

impl Default for ClassConfig {
    /// Five generic classes with primary colors and digit shortcuts, and no
    /// hierarchy.
    fn default() -> (r: ClassConfig)
        ensures
            r.classes@.len() == 5,
            r.hierarchy@.len() == 0,
            forall|i: int| 0 <= i < 5 ==> (#[trigger] r.classes@[i]).id == i + 1,
    {
        let mut classes: Vec<ClassDefinition> = Vec::new();
        classes.push(default_class(1, "Class 1", "#ff0000", "1"));
        classes.push(default_class(2, "Class 2", "#00ff00", "2"));
        classes.push(default_class(3, "Class 3", "#0000ff", "3"));
        classes.push(default_class(4, "Class 4", "#ffff00", "4"));
        classes.push(default_class(5, "Class 5", "#ff00ff", "5"));
        ClassConfig { classes, hierarchy: Vec::new() }
    }
}

} // verus!
