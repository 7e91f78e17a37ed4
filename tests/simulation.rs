use carnot::simulation::{CommitteeId, MaxViewWard, NodeId, OverlayState, StepTime};

#[test]
fn rebase_threshold() {
    let mut ttf = MaxViewWard { max_view: 10 };

    let mut nodes = vec![9];
    assert!(ttf.analyze(&nodes));

    nodes.push(11);
    assert!(!ttf.analyze(&nodes));
}

#[test]
fn ward_stops_at_the_bound_itself() {
    let mut ward = MaxViewWard::new(10);
    assert!(ward.analyze(&vec![]));
    assert!(!ward.analyze(&vec![3, 10]));
}

#[test]
fn node_and_committee_ids() {
    assert_eq!(NodeId::new(5).inner(), 5);
    assert_eq!(NodeId::from(7), NodeId(7));
    assert_eq!(CommitteeId::new(3), CommitteeId::from(3));
}

#[test]
fn step_times() {
    assert_eq!(StepTime::from_millis(1500).into_inner(), (1, 500_000_000));
    assert_eq!(StepTime::from_millis(999).into_inner(), (0, 999_000_000));
    assert_eq!(StepTime::from_secs(42).into_inner(), (42, 0));
    assert_eq!(StepTime::new(2, 7).into_inner(), (2, 7));
    assert!(StepTime::from_millis(1000) == StepTime::from_secs(1));
}

#[test]
fn overlay_state_views() {
    let state = OverlayState { all_nodes: vec![NodeId(0)], overlays: vec![] };
    assert!(state.get_view(0).is_none());
}
