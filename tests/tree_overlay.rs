use carnot::simulation::NodeId;
use carnot::tree_overlay::{CarnotRole, TreeOverlay, TreeSettings, TreeType};

fn overlay(depth: usize, committee_size: usize) -> TreeOverlay {
    TreeOverlay::new(TreeSettings {
        tree_type: TreeType::FullBinaryTree,
        depth,
        committee_size,
    })
}

#[test]
fn build_full_depth_1() {
    let overlay = overlay(1, 1);
    let nodes = overlay.nodes();
    let layout = overlay.layout(&nodes);
    assert_eq!(layout.committees.len(), 1);
    assert!(layout.children.is_empty());
    assert!(layout.parent.is_empty());
}

#[test]
fn build_full_depth_3() {
    let overlay = overlay(3, 1);
    let nodes = overlay.nodes();
    let layout = overlay.layout(&nodes);
    assert_eq!(layout.children[&0], vec![1, 2]);
    assert_eq!(layout.parent[&1], 0);
    assert_eq!(layout.parent[&2], 0);

    assert_eq!(layout.children[&1], vec![3, 4]);
    assert_eq!(layout.children[&2], vec![5, 6]);

    assert_eq!(layout.parent[&3], 1);
    assert_eq!(layout.children.get(&3), None);

    assert_eq!(layout.parent[&4], 1);
    assert_eq!(layout.children.get(&4), None);

    assert_eq!(layout.parent[&5], 2);
    assert_eq!(layout.children.get(&5), None);

    assert_eq!(layout.parent[&6], 2);
    assert_eq!(layout.children.get(&6), None);
}

#[test]
fn build_full_committee_size() {
    let overlay = overlay(10, 10);
    let nodes = overlay.nodes();
    let layout = overlay.layout(&nodes);

    // 2^h - 1
    assert_eq!(layout.committees.len(), 1023);

    let root_nodes = &layout.committees[&0].nodes;
    assert_eq!(root_nodes.len(), 10);
    assert_eq!(root_nodes.first(), Some(&NodeId(0)));
    assert_eq!(root_nodes.last(), Some(&NodeId(9)));

    let last_nodes = &layout.committees[&1022].nodes;
    assert_eq!(last_nodes.len(), 10);
    assert_eq!(last_nodes.first(), Some(&NodeId(10220)));
    assert_eq!(last_nodes.last(), Some(&NodeId(10229)));
}

#[test]
fn check_committee_role() {
    let overlay = overlay(3, 1);
    let nodes = overlay.nodes();
    let layout = overlay.layout(&nodes);

    assert_eq!(layout.committees[&0].role, CarnotRole::Root);
    assert_eq!(layout.committees[&1].role, CarnotRole::Intermediate);
    assert_eq!(layout.committees[&2].role, CarnotRole::Intermediate);
    assert_eq!(layout.committees[&3].role, CarnotRole::Leaf);
    assert_eq!(layout.committees[&6].role, CarnotRole::Leaf);
}

#[test]
fn check_layers() {
    let overlay = overlay(4, 1);
    let nodes = overlay.nodes();
    let layout = overlay.layout(&nodes);
    assert_eq!(layout.layers[&0], vec![0]);
    assert_eq!(layout.layers[&1], vec![1, 2]);
    assert_eq!(layout.layers[&2], vec![3, 4, 5, 6]);
}

#[test]
fn layout_takes_the_nodes_in_the_order_given() {
    let overlay = overlay(2, 2);
    let nodes: Vec<NodeId> = vec![7, 3, 9, 1, 4, 8].into_iter().map(NodeId::from).collect();
    let layout = overlay.layout(&nodes);
    assert_eq!(layout.committees[&0].nodes, vec![NodeId(7), NodeId(3)]);
    assert_eq!(layout.committees[&1].nodes, vec![NodeId(9), NodeId(1)]);
    assert_eq!(layout.committees[&2].nodes, vec![NodeId(4), NodeId(8)]);
    assert_eq!(layout.layers[&1], vec![1, 2]);
    assert_eq!(layout.layers.get(&2), None);
}

#[test]
fn nodes_count_the_whole_tree() {
    assert_eq!(overlay(3, 4).nodes().len(), 28);
    assert_eq!(overlay(1, 5).nodes(), (0..5).map(NodeId::new).collect::<Vec<_>>());
}
