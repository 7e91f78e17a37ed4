//! The simulator's tree overlay: `2^depth - 1` committees of equal size, numbered
//! as a complete binary tree, filled in order from the nodes chosen for the run.
use vstd::prelude::*;
use vstd::arithmetic::power2::{
    lemma2_to64, lemma_pow2_strictly_increases, lemma_pow2_unfold, pow2,
};
use std::collections::HashMap;
use crate::simulation::NodeId;

verus! {

broadcast use vstd::std_specs::hash::group_hash_axioms;

#[derive(Clone, Copy, Debug, PartialEq, Eq)]
pub enum TreeType {
    FullBinaryTree,
}

#[derive(Clone, Copy, Debug)]
pub struct TreeSettings {
    pub tree_type: TreeType,
    pub committee_size: usize,
    pub depth: usize,
}

#[derive(Clone, Copy, Debug, PartialEq, Eq)]
pub enum CarnotRole {
    Leader,
    Root,
    Intermediate,
    Leaf,
}

#[derive(Clone, Debug)]
pub struct TreeCommittee {
    pub nodes: Vec<NodeId>,
    pub role: CarnotRole,
}

/// Committees, parent and child links, and the committees of each layer, all by
/// committee number.
#[derive(Debug)]
pub struct Layout {
    pub committees: HashMap<usize, TreeCommittee>,
    pub parent: HashMap<usize, usize>,
    pub children: HashMap<usize, Vec<usize>>,
    pub layers: HashMap<usize, Vec<usize>>,
}

struct TreeProperties {
    committee_count: usize,
    node_count: usize,
}

pub open spec fn committee_count_spec(depth: nat) -> int {
    pow2(depth) - 1
}

/// A tree of these settings can be counted in `usize`.
pub open spec fn fits(settings: TreeSettings) -> bool {
    &&& pow2(settings.depth as nat) <= usize::MAX
    &&& committee_count_spec(settings.depth as nat) * settings.committee_size <= usize::MAX
}

pub open spec fn role_of(k: int, count: int) -> CarnotRole {
    if k == 0 {
        CarnotRole::Root
    } else if 2 * k + 2 <= count {
        CarnotRole::Intermediate
    } else {
        CarnotRole::Leaf
    }
}

/// The committees of layer `l`, in order.
pub open spec fn layer_ids(l: nat) -> Seq<usize> {
    Seq::new((pow2(l) as nat), |i: int| (pow2(l) - 1 + i) as usize)
}

/// Returns the number of committees in the whole tree, the root included.
fn committee_count(depth: usize) -> (r: usize)
    requires
        pow2(depth as nat) <= usize::MAX,
    ensures
        r == committee_count_spec(depth as nat),
{
    let mut c: usize = 1;
    let mut i: usize = 0;
    proof {
        lemma2_to64();
    }
    while i < depth
        invariant
            0 <= i <= depth,
            c == pow2(i as nat),
            pow2(depth as nat) <= usize::MAX,
        decreases depth - i,
    {
        proof {
            lemma_pow2_unfold((i + 1) as nat);
            if i + 1 < depth {
                lemma_pow2_strictly_increases((i + 1) as nat, depth as nat);
            }
        }
        c = c * 2;
        i += 1;
    }
    proof {
        vstd::arithmetic::power2::lemma_pow2_pos(depth as nat);
    }
    c - 1
}

fn get_tree_properties(settings: &TreeSettings) -> (r: TreeProperties)
    requires
        fits(*settings),
    ensures
        r.committee_count == committee_count_spec(settings.depth as nat),
        r.node_count == r.committee_count * settings.committee_size,
{
    let committee_count = committee_count(settings.depth);
    let node_count = committee_count * settings.committee_size;
    TreeProperties { committee_count, node_count }
}

fn get_parent_id(id: usize) -> (r: usize)
    requires
        id > 0,
    ensures
        r == (id - 1) / 2,
{
    (id - 1 + id % 2) / 2
}

pub struct TreeOverlay {
    pub settings: TreeSettings,
}

fn copy_nodes(node_ids: &Vec<NodeId>, from: usize, to: usize) -> (r: Vec<NodeId>)
    requires
        from <= to <= node_ids@.len(),
    ensures
        r@ == node_ids@.subrange(from as int, to as int),
{
    let mut r: Vec<NodeId> = Vec::new();
    let mut i: usize = from;
    while i < to
        invariant
            from <= i <= to <= node_ids@.len(),
            r@ == node_ids@.subrange(from as int, i as int),
        decreases to - i,
    {
        r.push(node_ids[i]);
        i += 1;
        assert(r@ =~= node_ids@.subrange(from as int, i as int));
    }
    r
}

/// The layout that `build_full_binary_tree` makes of `node_ids`.
pub open spec fn is_tree_layout(l: &Layout, node_ids: Seq<NodeId>, settings: TreeSettings) -> bool {
    let count = committee_count_spec(settings.depth as nat);
    let size = settings.committee_size as int;
    &&& l.committees@.len() == count
    &&& forall|k: usize| #[trigger] l.committees@.contains_key(k) <==> k < count
    &&& forall|k: usize|
        k < count ==> (#[trigger] l.committees@[k]).nodes@ == node_ids.subrange(
            k * size,
            (k + 1) * size,
        ) && l.committees@[k].role == role_of(k as int, count)
    &&& forall|k: usize| #[trigger] l.parent@.contains_key(k) <==> 0 < k < count
    &&& forall|k: usize| 0 < k < count ==> #[trigger] l.parent@[k] == (k - 1) / 2
    &&& forall|k: usize| #[trigger] l.children@.contains_key(k) <==> 2 * k + 2 <= count
    &&& forall|k: usize|
        2 * k + 2 <= count ==> (#[trigger] l.children@[k])@ == seq![
            (2 * k + 1) as usize,
            (2 * k + 2) as usize,
        ]
    &&& forall|d: usize| #[trigger] l.layers@.contains_key(d) <==> d < settings.depth
    &&& forall|d: usize| d < settings.depth ==> (#[trigger] l.layers@[d])@ == layer_ids(d as nat)
}

fn build_layers(depth: usize) -> (r: HashMap<usize, Vec<usize>>)
    requires
        pow2(depth as nat) <= usize::MAX,
    ensures
        forall|d: usize| #[trigger] r@.contains_key(d) <==> d < depth,
        forall|d: usize| d < depth ==> (#[trigger] r@[d])@ == layer_ids(d as nat),
{
    let mut layers: HashMap<usize, Vec<usize>> = HashMap::new();
    let mut d: usize = 0;
    let mut first: usize = 1;
    proof {
        lemma2_to64();
    }
    while d < depth
        invariant
            0 <= d <= depth,
            first == pow2(d as nat),
            pow2(depth as nat) <= usize::MAX,
            forall|e: usize| #[trigger] layers@.contains_key(e) <==> e < d,
            forall|e: usize| e < d ==> (#[trigger] layers@[e])@ == layer_ids(e as nat),
        decreases depth - d,
    {
        proof {
            lemma_pow2_unfold((d + 1) as nat);
            if d + 1 < depth {
                lemma_pow2_strictly_increases((d + 1) as nat, depth as nat);
            }
        }
        let mut ids: Vec<usize> = Vec::new();
        let mut i: usize = 0;
        while i < first
            invariant
                0 <= i <= first,
                first == pow2(d as nat),
                2 * first <= usize::MAX,
                ids@ == layer_ids(d as nat).subrange(0, i as int),
            decreases first - i,
        {
            ids.push(first - 1 + i);
            i += 1;
            assert(ids@ =~= layer_ids(d as nat).subrange(0, i as int));
        }
        assert(ids@ =~= layer_ids(d as nat));
        layers.insert(d, ids);
        first = first * 2;
        d += 1;
    }
    layers
}

impl TreeOverlay {
    pub fn new(settings: TreeSettings) -> (r: TreeOverlay)
        ensures
            r.settings == settings,
    {
        TreeOverlay { settings }
    }

    /// The nodes of a run: numbered from zero, as many as the tree holds.
    pub fn nodes(&self) -> (r: Vec<NodeId>)
        requires
            fits(self.settings),
        ensures
            r@.len() == committee_count_spec(self.settings.depth as nat)
                * self.settings.committee_size,
            forall|i: int| 0 <= i < r@.len() ==> #[trigger] r@[i] == NodeId(i as usize),
    {
        let properties = get_tree_properties(&self.settings);
        let mut r: Vec<NodeId> = Vec::new();
        let mut i: usize = 0;
        while i < properties.node_count
            invariant
                0 <= i <= properties.node_count,
                r@.len() == i,
                forall|j: int| 0 <= j < i ==> #[trigger] r@[j] == NodeId(j as usize),
            decreases properties.node_count - i,
        {
            r.push(NodeId(i));
            i += 1;
        }
        r
    }

    /// The layout of the committees over `node_ids`, the nodes chosen for the run
    /// in the order chosen.
    pub fn layout(&self, node_ids: &Vec<NodeId>) -> (r: Layout)
        requires
            fits(self.settings),
            self.settings.committee_size > 0,
            committee_count_spec(self.settings.depth as nat) * self.settings.committee_size
                <= node_ids@.len(),
        ensures
            is_tree_layout(&r, node_ids@, self.settings),
    {
        match self.settings.tree_type {
            TreeType::FullBinaryTree => Self::build_full_binary_tree(node_ids, &self.settings),
        }
    }

    fn build_full_binary_tree(node_ids: &Vec<NodeId>, settings: &TreeSettings) -> (r: Layout)
        requires
            fits(*settings),
            settings.committee_size > 0,
            committee_count_spec(settings.depth as nat) * settings.committee_size
                <= node_ids@.len(),
        ensures
            is_tree_layout(&r, node_ids@, *settings),
    {
        let properties = get_tree_properties(settings);
        let count = properties.committee_count;
        let size = settings.committee_size;
        let mut committees: HashMap<usize, TreeCommittee> = HashMap::new();
        let mut parents: HashMap<usize, usize> = HashMap::new();
        let mut children: HashMap<usize, Vec<usize>> = HashMap::new();
        let n = node_ids.len();
        let mut k: usize = 0;
        while k < count
            invariant
                n == node_ids@.len(),
                0 <= k <= count,
                count == committee_count_spec(settings.depth as nat),
                size == settings.committee_size,
                size > 0,
                count * size <= node_ids@.len(),
                committees@.dom().finite(),
                committees@.len() == k,
                forall|j: usize| #[trigger] committees@.contains_key(j) <==> j < k,
                forall|j: usize|
                    j < k ==> (#[trigger] committees@[j]).nodes@ == node_ids@.subrange(
                        j * size,
                        (j + 1) * size,
                    ) && committees@[j].role == role_of(j as int, count as int),
                forall|j: usize| #[trigger] parents@.contains_key(j) <==> 0 < j < k,
                forall|j: usize| 0 < j < k ==> #[trigger] parents@[j] == (j - 1) / 2,
                forall|j: usize|
                    #[trigger] children@.contains_key(j) <==> (j < k && 2 * j + 2 <= count),
                forall|j: usize|
                    j < k && 2 * j + 2 <= count ==> (#[trigger] children@[j])@ == seq![
                        (2 * j + 1) as usize,
                        (2 * j + 2) as usize,
                    ],
            decreases count - k,
        {
            proof {
                assert((k + 1) * size <= count * size) by (nonlinear_arith)
                    requires
                        k + 1 <= count,
                        size > 0,
                ;
                assert(k * size + size == (k + 1) * size) by (nonlinear_arith);
                assert(k * size + size <= node_ids@.len());
                assert(node_ids@.len() <= usize::MAX);
                assert(k * size + size <= usize::MAX);
                assert(0 <= k * size) by (nonlinear_arith)
                    requires
                        k >= 0,
                        size > 0,
                ;
            }
            let nodes = copy_nodes(node_ids, k * size, k * size + size);
            let mut has_children = false;
            if k + 1 <= count / 2 {
                let mut c: Vec<usize> = Vec::new();
                c.push(2 * k + 1);
                c.push(2 * k + 2);
                children.insert(k, c);
                has_children = true;
            }
            if k > 0 {
                parents.insert(k, get_parent_id(k));
            }
            let role = if k == 0 {
                CarnotRole::Root
            } else if has_children {
                CarnotRole::Intermediate
            } else {
                CarnotRole::Leaf
            };
            committees.insert(k, TreeCommittee { nodes, role });
            k += 1;
        }
        assert forall|j: usize| #[trigger] children@.contains_key(j) <==> 2 * j + 2 <= count by {}
        let layers = build_layers(settings.depth);
        Layout { committees, parent: parents, children, layers }
    }
}

} // verus!
