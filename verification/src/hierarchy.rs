//! The hierarchical class navigator: a bounded tree keyed by small digits,
//! walked one key press at a time until a leaf yields a class id.

use vstd::prelude::*;

verus! {

use crate::classes::{clone_opt_string, ClassConfig, HierarchicalClassNode};

/// The first node of a level with the given key, if any.
pub open spec fn spec_find_key(nodes: Seq<HierarchicalClassNode>, key: u8) -> Option<
    HierarchicalClassNode,
>
    decreases nodes.len(),
{
    if nodes.len() == 0 {
        None
    } else if nodes[0].key == key {
        Some(nodes[0])
    } else {
        spec_find_key(nodes.subrange(1, nodes.len() as int), key)
    }
}

/// The level of the tree a key path leads to: the root level for the empty
/// path, or the children of the node each key selects in turn; an
/// unmatched key gives nothing.
pub open spec fn spec_level(nodes: Seq<HierarchicalClassNode>, path: Seq<u8>) -> Option<
    Seq<HierarchicalClassNode>,
>
    decreases path.len(),
{
    if path.len() == 0 {
        Some(nodes)
    } else {
        match spec_find_key(nodes, path[0]) {
            None => None,
            Some(n) => spec_level(n.children@, path.subrange(1, path.len() as int)),
        }
    }
}

/// The breadcrumb a key path leaves: the label of the node each key
/// selects, in order, stopping at the first unmatched key.
pub open spec fn spec_breadcrumb(nodes: Seq<HierarchicalClassNode>, path: Seq<u8>) -> Seq<
    Seq<char>,
>
    decreases path.len(),
{
    if path.len() == 0 {
        Seq::empty()
    } else {
        match spec_find_key(nodes, path[0]) {
            None => Seq::empty(),
            Some(n) => seq![n.label@] + spec_breadcrumb(
                n.children@,
                path.subrange(1, path.len() as int),
            ),
        }
    }
}

/// The depth of a tree: zero when empty, else one more than the deepest
/// child level.
pub open spec fn spec_depth(nodes: Seq<HierarchicalClassNode>) -> nat
    decreases nodes,
{
    if nodes.len() == 0 {
        0
    } else {
        let d0: nat = 1 + spec_depth(nodes[0].children@);
        let dr = spec_depth(nodes.subrange(1, nodes.len() as int));
        if d0 >= dr {
            d0
        } else {
            dr
        }
    }
}

/// How many leaf classes (nodes carrying an id) the tree holds.
pub open spec fn spec_leaf_count(nodes: Seq<HierarchicalClassNode>) -> nat
    decreases nodes,
{
    if nodes.len() == 0 {
        0
    } else {
        (if nodes[0].id is Some {
            1nat
        } else {
            0nat
        }) + spec_leaf_count(nodes[0].children@) + spec_leaf_count(
            nodes.subrange(1, nodes.len() as int),
        )
    }
}

/// Every key of the tree lies in 1..=5 and every level has at most 5 nodes.
pub open spec fn spec_tree_ok(nodes: Seq<HierarchicalClassNode>) -> bool
    decreases nodes,
{
    if nodes.len() == 0 {
        true
    } else {
        &&& nodes.len() <= 5
        &&& 1 <= nodes[0].key <= 5
        &&& spec_tree_ok(nodes[0].children@)
        &&& spec_tree_ok(nodes.subrange(1, nodes.len() as int))
    }
}

/// Navigation state for hierarchical class selection: the keys pressed so
/// far and the immutable tree they walk.
pub struct HierarchyNavigator {
    pub path: Vec<u8>,
    pub hierarchy: Vec<HierarchicalClassNode>,
    pub max_depth: usize,
}

impl HierarchyNavigator {
    /// The tree this navigator walks.
    pub open spec fn tree(&self) -> Seq<HierarchicalClassNode> {
        self.hierarchy@
    }

    /// Build a navigator over a class configuration's hierarchy.  The tree
    /// is taken as given; its depth is measured for the prompt text.
    pub fn new(config: ClassConfig) -> (r: HierarchyNavigator)
        ensures
            r.path@.len() == 0,
            r.tree() == config.hierarchy@,
            spec_depth(config.hierarchy@) <= usize::MAX ==> r.max_depth_spec() == spec_depth(
                config.hierarchy@,
            ),
    {
        let max_depth = validate_and_get_depth(&config.hierarchy);
        HierarchyNavigator { path: Vec::new(), hierarchy: config.hierarchy, max_depth }
    }

    pub open spec fn max_depth_spec(&self) -> nat {
        self.max_depth as nat
    }

    /// Whether hierarchy mode is active: the tree is non-empty.
    pub fn is_hierarchical(&self) -> (r: bool)
        ensures
            r == (self.tree().len() > 0),
    {
        self.hierarchy.len() > 0
    }

    /// How many keys deep the cursor currently is.
    pub fn current_depth(&self) -> (r: usize)
        ensures
            r == self.path@.len(),
    {
        self.path.len()
    }

    /// Whether the cursor stands at the root level.
    pub fn is_at_root(&self) -> (r: bool)
        ensures
            r == (self.path@.len() == 0),
    {
        self.path.len() == 0
    }

    /// The measured depth of the tree.
    pub fn max_depth(&self) -> (r: usize)
        ensures
            r as nat == self.max_depth_spec(),
    {
        self.max_depth
    }

    /// Step down with a key press.  Keys outside 1..=5 and keys matching no
    /// node at the current level do nothing.  A matching node is descended
    /// into; if it carries a class id, the id is returned and the cursor
    /// resets to the root.
    pub fn navigate_down(&mut self, key: u8) -> (r: Option<i64>)
        ensures
            final(self).tree() == old(self).tree(),
            final(self).max_depth_spec() == old(self).max_depth_spec(),
            (key < 1 || key > 5) ==> r is None && final(self).path@ == old(self).path@,
            (1 <= key <= 5) ==> match spec_level(old(self).tree(), old(self).path@) {
                None => r is None && final(self).path@ == old(self).path@,
                Some(level) => match spec_find_key(level, key) {
                    None => r is None && final(self).path@ == old(self).path@,
                    Some(node) => if node.id is Some {
                        r == Some(node.id->0) && final(self).path@.len() == 0
                    } else {
                        r is None && final(self).path@ == old(self).path@.push(key)
                    },
                },
            },
    {
        if key < 1 || key > 5 {
            return None;
        }
        match self.find_at_level(key) {
            None => None,
            Some(node_id) => match node_id {
                Some(id) => {
                    self.path = Vec::new();
                    Some(id)
                },
                None => {
                    self.path.push(key);
                    None
                },
            },
        }
    }

    /// The class id slot of the node the key selects at the current level:
    /// nothing when the path is invalid or no node matches.
    fn find_at_level(&self, key: u8) -> (r: Option<Option<i64>>)
        ensures
            match spec_level(self.tree(), self.path@) {
                None => r is None,
                Some(level) => match spec_find_key(level, key) {
                    None => r is None,
                    Some(node) => r == Some(node.id),
                },
            },
    {
        let level = match self.level_nodes_index() {
            None => {
                return None;
            },
            Some(level) => level,
        };
        let ghost level_view = spec_level(self.tree(), self.path@)->0;
        let n = level.len();
        let mut i: usize = 0;
        proof {
            assert(level_view.subrange(0, n as int) =~= level_view);
        }
        while i < n
            invariant
                0 <= i <= n,
                n == level@.len(),
                level@ =~= level_view,
                spec_level(self.tree(), self.path@) == Some(level_view),
                spec_find_key(level_view, key) == spec_find_key(
                    level_view.subrange(i as int, n as int),
                    key,
                ),
            decreases n - i,
        {
            proof {
                let rest = level_view.subrange(i as int, n as int);
                assert(rest[0] == level_view[i as int]);
                assert(rest.subrange(1, rest.len() as int) =~= level_view.subrange(
                    i + 1,
                    n as int,
                ));
            }
            if level[i].key == key {
                proof {
                    assert(level@[i as int] == level_view[i as int]);
                    assert(level_view.subrange(i as int, n as int)[0] == level_view[i as int]);
                    assert(spec_find_key(level_view.subrange(i as int, n as int), key) == Some(
                        level_view[i as int],
                    ));
                    assert(spec_find_key(level_view, key) == Some(level_view[i as int]));
                    assert(spec_level(self.tree(), self.path@) == Some(level_view));
                    assert(spec_find_key(spec_level(self.tree(), self.path@)->0, key)->0.id
                        == level@[i as int].id);
                }
                return Some(level[i].id);
            }
            i = i + 1;
        }
        proof {
            assert(level_view.subrange(n as int, n as int) =~= Seq::<
                HierarchicalClassNode,
            >::empty());
        }
        None
    }

    /// Step up one level; at the root this does nothing.
    pub fn navigate_up(&mut self)
        ensures
            final(self).tree() == old(self).tree(),
            final(self).max_depth_spec() == old(self).max_depth_spec(),
            old(self).path@.len() == 0 ==> final(self).path@ == old(self).path@,
            old(self).path@.len() > 0 ==> final(self).path@ == old(self).path@.drop_last(),
    {
        let _ = self.path.pop();
    }

    /// Back to the root level.
    pub fn reset(&mut self)
        ensures
            final(self).tree() == old(self).tree(),
            final(self).max_depth_spec() == old(self).max_depth_spec(),
            final(self).path@.len() == 0,
    {
        self.path = Vec::new();
    }

    /// The nodes at the level the cursor stands on, as owned copies of their
    /// displayed fields (key, label, class id, and how many children).  An
    /// invalid path gives an empty list.
    pub fn get_current_level_nodes(&self) -> (r: Vec<HierarchicalClassNode>)
        ensures
            match spec_level(self.tree(), self.path@) {
                None => r@.len() == 0,
                Some(level) => r@.len() == level.len() && forall|i: int|
                    0 <= i < level.len() ==> (#[trigger] r@[i]).key == level[i].key
                        && r@[i].label@ == level[i].label@ && r@[i].id == level[i].id
                        && r@[i].children@.len() == level[i].children@.len(),
            },
    {
        match self.level_nodes_index() {
            None => Vec::new(),
            Some(level) => {
                let ghost level_view = spec_level(self.tree(), self.path@)->0;
                let mut out: Vec<HierarchicalClassNode> = Vec::new();
                let mut i: usize = 0;
                while i < level.len()
                    invariant
                        0 <= i <= level@.len(),
                        level@ =~= level_view,
                        out@.len() == i,
                        forall|k: int|
                            0 <= k < i ==> (#[trigger] out@[k]).key == level_view[k].key
                                && out@[k].label@ == level_view[k].label@ && out@[k].id
                                == level_view[k].id && out@[k].children@.len()
                                == level_view[k].children@.len(),
                    decreases level@.len() - i,
                {
                    out.push(shallow_copy_node(&level[i]));
                    i = i + 1;
                }
                out
            },
        }
    }

    /// The labels along the current path, for display as a breadcrumb: the
    /// label of the node each pressed key selects, stopping at the first
    /// key that matches nothing.
    pub fn get_breadcrumb(&self) -> (r: Vec<String>)
        ensures
            r@.map_values(|t: String| t@) =~= spec_breadcrumb(self.tree(), self.path@),
    {
        let mut out: Vec<String> = Vec::new();
        let mut nodes = &self.hierarchy;
        let mut d: usize = 0;
        proof {
            assert(self.path@.subrange(0, self.path@.len() as int) =~= self.path@);
        }
        while d < self.path.len()
            invariant
                0 <= d <= self.path@.len(),
                spec_breadcrumb(self.tree(), self.path@) =~= out@.map_values(|t: String| t@)
                    + spec_breadcrumb(
                    nodes@,
                    self.path@.subrange(d as int, self.path@.len() as int),
                ),
            decreases self.path@.len() - d,
        {
            let key = self.path[d];
            let ghost rest_path = self.path@.subrange(d as int, self.path@.len() as int);
            proof {
                assert(rest_path[0] == self.path@[d as int]);
                assert(rest_path.subrange(1, rest_path.len() as int) =~= self.path@.subrange(
                    d + 1,
                    self.path@.len() as int,
                ));
            }
            let ghost level_view = nodes@;
            let n = nodes.len();
            let mut i: usize = 0;
            let mut next: Option<&Vec<HierarchicalClassNode>> = None;
            proof {
                assert(level_view.subrange(0, n as int) =~= level_view);
            }
            while i < n && next.is_none()
                invariant
                    0 <= i <= n,
                    n == nodes@.len(),
                    level_view == nodes@,
                    match next {
                        Some(v) => spec_find_key(level_view, key) is Some && v@ == spec_find_key(
                            level_view,
                            key,
                        )->0.children@ && out@.len() > 0 && out@.last()@ == spec_find_key(
                            level_view,
                            key,
                        )->0.label@,
                        None => spec_find_key(level_view, key) == spec_find_key(
                            level_view.subrange(i as int, n as int),
                            key,
                        ),
                    },
                    spec_breadcrumb(self.tree(), self.path@) =~= (match next {
                        Some(_) => out@.map_values(|t: String| t@).drop_last(),
                        None => out@.map_values(|t: String| t@),
                    }) + spec_breadcrumb(level_view, rest_path),
                decreases n - i, (if next is Some { 0int } else { 1int }),
            {
                proof {
                    let rest = level_view.subrange(i as int, n as int);
                    assert(rest[0] == level_view[i as int]);
                    assert(rest.subrange(1, rest.len() as int) =~= level_view.subrange(
                        i + 1,
                        n as int,
                    ));
                }
                if nodes[i].key == key {
                    let ghost prev = out@;
                    out.push(nodes[i].label.clone());
                    next = Some(&nodes[i].children);
                    proof {
                        assert(out@.map_values(|t: String| t@).drop_last() =~= prev.map_values(
                            |t: String| t@,
                        ));
                    }
                } else {
                    i = i + 1;
                }
            }
            match next {
                Some(children) => {
                    proof {
                        let found = spec_find_key(level_view, key);
                        assert(spec_breadcrumb(level_view, rest_path) =~= seq![
                            found->0.label@,
                        ] + spec_breadcrumb(found->0.children@, rest_path.subrange(
                            1,
                            rest_path.len() as int,
                        )));
                        assert(out@.map_values(|t: String| t@) =~= out@.map_values(
                            |t: String| t@,
                        ).drop_last().push(out@.last()@));
                    }
                    nodes = children;
                },
                None => {
                    proof {
                        assert(level_view.subrange(n as int, n as int) =~= Seq::<
                            HierarchicalClassNode,
                        >::empty());
                        assert(spec_breadcrumb(level_view, rest_path) =~= Seq::<
                            Seq<char>,
                        >::empty());
                    }
                    return out;
                },
            }
            d = d + 1;
        }
        proof {
            assert(self.path@.subrange(self.path@.len() as int, self.path@.len() as int) =~= Seq::<
                u8,
            >::empty());
        }
        out
    }

    /// The prompt for the current level: category at the root, subcategory
    /// in between, class at the deepest level.
    pub fn get_prompt(&self) -> (r: String)
        ensures
            self.path@.len() == 0 ==> r@ == "Select category (1-5)"@,
            self.path@.len() > 0 && self.path@.len() < self.max_depth_spec() ==> r@
                == "Select subcategory (1-5)"@,
            self.path@.len() > 0 && self.path@.len() >= self.max_depth_spec() ==> r@
                == "Select class (1-5)"@,
    {
        if self.path.len() == 0 {
            "Select category (1-5)".to_owned()
        } else if self.path.len() < self.max_depth {
            "Select subcategory (1-5)".to_owned()
        } else {
            "Select class (1-5)".to_owned()
        }
    }

    /// Walk the stored path down the tree, returning the level the cursor
    /// stands on.
    fn level_nodes_index(&self) -> (r: Option<&Vec<HierarchicalClassNode>>)
        ensures
            match r {
                Some(v) => spec_level(self.tree(), self.path@) == Some(v@),
                None => spec_level(self.tree(), self.path@) is None,
            },
    {
        let mut nodes = &self.hierarchy;
        let mut d: usize = 0;
        proof {
            assert(self.path@.subrange(0, self.path@.len() as int) =~= self.path@);
        }
        while d < self.path.len()
            invariant
                0 <= d <= self.path@.len(),
                spec_level(self.tree(), self.path@) == spec_level(
                    nodes@,
                    self.path@.subrange(d as int, self.path@.len() as int),
                ),
            decreases self.path@.len() - d,
        {
            let key = self.path[d];
            let ghost rest_path = self.path@.subrange(d as int, self.path@.len() as int);
            proof {
                assert(rest_path[0] == self.path@[d as int]);
                assert(rest_path.subrange(1, rest_path.len() as int) =~= self.path@.subrange(
                    d + 1,
                    self.path@.len() as int,
                ));
            }
            let ghost level_view = nodes@;
            let n = nodes.len();
            let mut i: usize = 0;
            let mut next: Option<&Vec<HierarchicalClassNode>> = None;
            proof {
                assert(level_view.subrange(0, n as int) =~= level_view);
            }
            while i < n && next.is_none()
                invariant
                    0 <= i <= n,
                    n == nodes@.len(),
                    level_view == nodes@,
                    match next {
                        Some(v) => spec_find_key(level_view, key) is Some && v@ == spec_find_key(
                            level_view,
                            key,
                        )->0.children@,
                        None => spec_find_key(level_view, key) == spec_find_key(
                            level_view.subrange(i as int, n as int),
                            key,
                        ),
                    },
                decreases n - i, (if next is Some { 0int } else { 1int }),
            {
                proof {
                    let rest = level_view.subrange(i as int, n as int);
                    assert(rest[0] == level_view[i as int]);
                    assert(rest.subrange(1, rest.len() as int) =~= level_view.subrange(
                        i + 1,
                        n as int,
                    ));
                }
                if nodes[i].key == key {
                    next = Some(&nodes[i].children);
                } else {
                    i = i + 1;
                }
            }
            match next {
                Some(children) => {
                    nodes = children;
                },
                None => {
                    proof {
                        assert(level_view.subrange(n as int, n as int) =~= Seq::<
                            HierarchicalClassNode,
                        >::empty());
                    }
                    return None;
                },
            }
            d = d + 1;
        }
        proof {
            assert(self.path@.subrange(self.path@.len() as int, self.path@.len() as int) =~= Seq::<
                u8,
            >::empty());
        }
        Some(nodes)
    }
}

/// A copy of a node's displayed fields; grandchildren are not copied, only
/// counted, which is all the display needs.
fn shallow_copy_node(n: &HierarchicalClassNode) -> (r: HierarchicalClassNode)
    ensures
        r.key == n.key,
        r.label@ == n.label@,
        r.id == n.id,
        r.name == n.name,
        r.color == n.color,
        r.children@.len() == n.children@.len(),
{
    let mut children: Vec<HierarchicalClassNode> = Vec::new();
    let mut i: usize = 0;
    while i < n.children.len()
        invariant
            0 <= i <= n.children@.len(),
            children@.len() == i,
        decreases n.children@.len() - i,
    {
        children.push(
            HierarchicalClassNode {
                key: n.children[i].key,
                label: n.children[i].label.clone(),
                children: Vec::new(),
                id: n.children[i].id,
                name: clone_opt_string(&n.children[i].name),
                color: clone_opt_string(&n.children[i].color),
            },
        );
        i = i + 1;
    }
    HierarchicalClassNode {
        key: n.key,
        label: n.label.clone(),
        children,
        id: n.id,
        name: clone_opt_string(&n.name),
        color: clone_opt_string(&n.color),
    }
}

/// Measure a tree's depth: zero for a flat (empty) hierarchy, otherwise the
/// number of levels; saturates at the machine limit.
pub fn validate_and_get_depth(nodes: &Vec<HierarchicalClassNode>) -> (r: usize)
    ensures
        spec_depth(nodes@) <= usize::MAX ==> r == spec_depth(nodes@),
        spec_depth(nodes@) > usize::MAX ==> r == usize::MAX,
    decreases nodes@,
{
    let mut best: usize = 0;
    let mut i: usize = 0;
    while i < nodes.len()
        invariant
            0 <= i <= nodes@.len(),
            spec_depth(nodes@.subrange(0, i as int)) <= usize::MAX ==> best == spec_depth(
                nodes@.subrange(0, i as int),
            ),
            spec_depth(nodes@.subrange(0, i as int)) > usize::MAX ==> best == usize::MAX,
        decreases nodes@.len() - i,
    {
        let child_depth = validate_and_get_depth(&nodes[i].children);
        let d = if child_depth < usize::MAX {
            child_depth + 1
        } else {
            usize::MAX
        };
        if d > best {
            best = d;
        }
        proof {
            lemma_depth_extend(nodes@, i as int);
        }
        i = i + 1;
    }
    proof {
        assert(nodes@.subrange(0, nodes@.len() as int) =~= nodes@);
    }
    best
}

/// Depth of a prefix one longer: the maximum of the old prefix depth and one
/// more than the added node's child depth.
proof fn lemma_depth_extend(nodes: Seq<HierarchicalClassNode>, i: int)
    requires
        0 <= i < nodes.len(),
    ensures
        spec_depth(nodes.subrange(0, i + 1)) == if spec_depth(nodes.subrange(0, i)) >= 1
            + spec_depth(nodes[i].children@) {
            spec_depth(nodes.subrange(0, i))
        } else {
            1 + spec_depth(nodes[i].children@)
        },
    decreases i,
{
    if i == 0 {
        let s = nodes.subrange(0, 1);
        assert(s[0] == nodes[0]);
        assert(s.subrange(1, 1) =~= Seq::<HierarchicalClassNode>::empty());
        reveal_with_fuel(spec_depth, 2);
        assert(nodes.subrange(0, 0) =~= Seq::<HierarchicalClassNode>::empty());
    } else {
        let s = nodes.subrange(0, i + 1);
        let t = nodes.subrange(0, i);
        assert(s[0] == nodes[0]);
        assert(t[0] == nodes[0]);
        assert(s.subrange(1, s.len() as int) =~= nodes.subrange(1, nodes.len() as int).subrange(
            0,
            i,
        ));
        assert(t.subrange(1, t.len() as int) =~= nodes.subrange(1, nodes.len() as int).subrange(
            0,
            i - 1,
        ));
        assert(nodes.subrange(1, nodes.len() as int)[i - 1] == nodes[i]);
        lemma_depth_extend(nodes.subrange(1, nodes.len() as int), i - 1);
    }
}

/// Check the tree's shape: at most five nodes per level, keys in 1..=5, and
/// at most three levels.  The error names the first constraint broken.
pub fn validate_hierarchy(nodes: &Vec<HierarchicalClassNode>) -> (r: Result<(), String>)
    ensures
        r is Ok <==> spec_tree_ok(nodes@) && spec_depth(nodes@) <= 3,
{
    if !tree_shape_ok(nodes) {
        return Err("Hierarchy has a level with more than 5 nodes or a key outside 1-5".to_owned());
    }
    let depth = validate_and_get_depth(nodes);
    if depth > 3 {
        return Err("Hierarchy is deeper than 3 levels".to_owned());
    }
    Ok(())
}

/// Exec check of [`spec_tree_ok`].
fn tree_shape_ok(nodes: &Vec<HierarchicalClassNode>) -> (r: bool)
    ensures
        r == spec_tree_ok(nodes@),
    decreases nodes@,
{
    if nodes.len() == 0 {
        return true;
    }
    if nodes.len() > 5 {
        proof {
            assert(!spec_tree_ok(nodes@));
        }
        return false;
    }
    let mut i: usize = 0;
    let mut ok = true;
    proof {
        assert(nodes@.subrange(0, nodes@.len() as int) =~= nodes@);
    }
    while i < nodes.len() && ok
        invariant
            0 <= i <= nodes@.len(),
            1 <= nodes@.len() <= 5,
            ok ==> spec_tree_ok(nodes@.subrange(i as int, nodes@.len() as int)) == spec_tree_ok(
                nodes@,
            ),
            !ok ==> !spec_tree_ok(nodes@),
        decreases nodes@.len() - i, (if ok { 1int } else { 0int }),
    {
        proof {
            let rest = nodes@.subrange(i as int, nodes@.len() as int);
            assert(rest[0] == nodes@[i as int]);
            assert(rest.subrange(1, rest.len() as int) =~= nodes@.subrange(
                i + 1,
                nodes@.len() as int,
            ));
            assert(rest.len() <= 5);
        }
        let key_ok = 1 <= nodes[i].key && nodes[i].key <= 5;
        let child_ok = tree_shape_ok(&nodes[i].children);
        if !(key_ok && child_ok) {
            ok = false;
        } else {
            i = i + 1;
        }
    }
    proof {
        if ok {
            assert(nodes@.subrange(nodes@.len() as int, nodes@.len() as int) =~= Seq::<
                HierarchicalClassNode,
            >::empty());
        }
    }
    ok
}

/// Count the leaf classes of a tree, saturating at the machine limit.
pub fn count_leaf_classes(nodes: &Vec<HierarchicalClassNode>) -> (r: usize)
    ensures
        spec_leaf_count(nodes@) <= usize::MAX ==> r == spec_leaf_count(nodes@),
        spec_leaf_count(nodes@) > usize::MAX ==> r == usize::MAX,
    decreases nodes@,
{
    let mut total: usize = 0;
    let mut i: usize = 0;
    while i < nodes.len()
        invariant
            0 <= i <= nodes@.len(),
            spec_leaf_count(nodes@.subrange(0, i as int)) <= usize::MAX ==> total
                == spec_leaf_count(nodes@.subrange(0, i as int)),
            spec_leaf_count(nodes@.subrange(0, i as int)) > usize::MAX ==> total == usize::MAX,
        decreases nodes@.len() - i,
    {
        let own: usize = match nodes[i].id {
            Some(_) => 1,
            None => 0,
        };
        let sub = count_leaf_classes(&nodes[i].children);
        let add = if sub <= usize::MAX - own {
            sub + own
        } else {
            usize::MAX
        };
        total = if total <= usize::MAX - add {
            total + add
        } else {
            usize::MAX
        };
        proof {
            lemma_leaf_count_extend(nodes@, i as int);
        }
        i = i + 1;
    }
    proof {
        assert(nodes@.subrange(0, nodes@.len() as int) =~= nodes@);
    }
    total
}

/// Leaf count of a prefix one longer.
proof fn lemma_leaf_count_extend(nodes: Seq<HierarchicalClassNode>, i: int)
    requires
        0 <= i < nodes.len(),
    ensures
        spec_leaf_count(nodes.subrange(0, i + 1)) == spec_leaf_count(nodes.subrange(0, i)) + (
        if nodes[i].id is Some {
            1nat
        } else {
            0nat
        }) + spec_leaf_count(nodes[i].children@),
    decreases i,
{
    if i == 0 {
        let s = nodes.subrange(0, 1);
        assert(s[0] == nodes[0]);
        assert(s.subrange(1, 1) =~= Seq::<HierarchicalClassNode>::empty());
        reveal_with_fuel(spec_leaf_count, 2);
        assert(nodes.subrange(0, 0) =~= Seq::<HierarchicalClassNode>::empty());
    } else {
        let s = nodes.subrange(0, i + 1);
        let t = nodes.subrange(0, i);
        assert(s[0] == nodes[0]);
        assert(t[0] == nodes[0]);
        assert(s.subrange(1, s.len() as int) =~= nodes.subrange(1, nodes.len() as int).subrange(
            0,
            i,
        ));
        assert(t.subrange(1, t.len() as int) =~= nodes.subrange(1, nodes.len() as int).subrange(
            0,
            i - 1,
        ));
        assert(nodes.subrange(1, nodes.len() as int)[i - 1] == nodes[i]);
        lemma_leaf_count_extend(nodes.subrange(1, nodes.len() as int), i - 1);
    }
}

/// The hierarchy depth a class count demands: one flat level up to 5
/// classes, two levels up to 25, three up to 125; zero or more than 125
/// classes cannot be served.
pub fn required_hierarchy_depth(class_count: usize) -> (r: Result<usize, String>)
    ensures
        class_count == 0 ==> r is Err,
        1 <= class_count <= 5 ==> r == Ok::<usize, String>(1usize),
        6 <= class_count <= 25 ==> r == Ok::<usize, String>(2usize),
        26 <= class_count <= 125 ==> r == Ok::<usize, String>(3usize),
        class_count > 125 ==> r is Err,
{
    if class_count == 0 {
        Err("No classes defined".to_owned())
    } else if class_count <= 5 {
        Ok(1)
    } else if class_count <= 25 {
        Ok(2)
    } else if class_count <= 125 {
        Ok(3)
    } else {
        Err("Too many classes, max 125 supported".to_owned())
    }
}

} // verus!
