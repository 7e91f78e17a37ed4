use carnot::carnot::Carnot;
use carnot::overlay::CommitteeOverlay;
use carnot::types::{
    AggregateQc, Block, BlockId, LeaderProof, NewView, NodeId, Payload, Qc, StandardQc, Timeout,
    TimeoutQc, Vote,
};

fn node(i: u8) -> NodeId {
    NodeId::new([i; 32])
}

fn bid(i: u8) -> BlockId {
    let mut b = [0u8; 32];
    b[0] = i;
    b[1] = 1;
    BlockId::new(b)
}

fn genesis() -> Block {
    Block {
        id: BlockId::zeros(),
        view: 0,
        parent_qc: Qc::Standard(StandardQc { view: -1, id: BlockId::zeros() }),
        leader_proof: LeaderProof::LeaderId { leader_id: NodeId::new([0; 32]) },
    }
}

fn qc_of(b: &Block) -> Qc {
    Qc::Standard(StandardQc { view: b.view, id: b.id })
}

fn block(view: i64, parent_qc: Qc) -> Block {
    Block {
        id: bid(view as u8),
        view,
        parent_qc,
        leader_proof: LeaderProof::LeaderId { leader_id: node(1) },
    }
}

/// All nodes in one committee, which is root and leaf at once.
fn flat(n: u8, num: u64, den: u64) -> CommitteeOverlay {
    let nodes: Vec<NodeId> = (1..=n).map(node).collect();
    CommitteeOverlay {
        nodes: nodes.clone(),
        committees: vec![nodes],
        threshold_num: num,
        threshold_den: den,
    }
}

/// Three committees: 1 and 2 at the root, 3 and 4 on the left, 5 and 6 on the right.
fn tree() -> CommitteeOverlay {
    CommitteeOverlay {
        nodes: (1..=6).map(node).collect(),
        committees: vec![
            vec![node(1), node(2)],
            vec![node(3), node(4)],
            vec![node(5), node(6)],
        ],
        threshold_num: 2,
        threshold_den: 3,
    }
}

fn chain(c: &mut Carnot, up_to: i64) -> Vec<Block> {
    let mut blocks = vec![genesis()];
    for v in 1..=up_to {
        let b = block(v, qc_of(blocks.last().unwrap()));
        assert!(c.receive_block(b).is_ok());
        blocks.push(b);
    }
    blocks
}

#[test]
fn starts_from_genesis() {
    let c = Carnot::from_genesis(node(1), genesis(), flat(2, 1, 1));
    assert_eq!(c.current_view(), 0);
    assert_eq!(c.highest_voted_view(), -1);
    assert_eq!(c.genesis_block(), genesis());
    assert_eq!(c.latest_committed_blocks(), vec![BlockId::zeros()]);
    assert_eq!(c.last_view_timeout_qc(), None);
}

#[test]
fn happy_extension_moves_the_view() {
    let mut c = Carnot::from_genesis(node(1), genesis(), flat(2, 1, 1));
    let b1 = block(1, qc_of(&genesis()));
    assert!(c.receive_block(b1).is_ok());
    assert_eq!(c.current_view(), 1);
    assert_eq!(c.high_qc(), StandardQc { view: 0, id: BlockId::zeros() });
    assert_eq!(c.blocks_in_view(1), vec![b1]);
    assert!(c.blocks_in_view(2).is_empty());
}

#[test]
fn rejects_unknown_parent_and_gaps() {
    let mut c = Carnot::from_genesis(node(1), genesis(), flat(2, 1, 1));
    let orphan = block(1, Qc::Standard(StandardQc { view: 0, id: bid(99) }));
    assert!(c.receive_block(orphan).is_err());
    let gap = block(3, qc_of(&genesis()));
    assert!(c.receive_block(gap).is_err());
    let backwards = block(0, qc_of(&genesis()));
    assert!(c.receive_block(backwards).is_err());
    assert_eq!(c.current_view(), 0);
    assert_eq!(c.safe_blocks.len(), 1);
}

#[test]
fn one_block_per_view_and_duplicates_are_harmless() {
    let mut c = Carnot::from_genesis(node(1), genesis(), flat(2, 1, 1));
    let b1 = block(1, qc_of(&genesis()));
    assert!(c.receive_block(b1).is_ok());
    let mut rival = b1;
    rival.id = bid(200);
    assert!(c.receive_block(rival).is_err());
    assert!(c.receive_block(b1).is_ok());
    assert_eq!(c.safe_blocks.len(), 2);
    assert_eq!(c.current_view(), 1);
}

#[test]
fn two_chain_commits_the_grandparent() {
    let mut c = Carnot::from_genesis(node(1), genesis(), flat(2, 1, 1));
    let blocks = chain(&mut c, 3);
    assert_eq!(c.latest_committed_block(), blocks[1]);
    assert_eq!(c.latest_committed_blocks(), vec![blocks[1].id, BlockId::zeros()]);
    let b4 = block(4, qc_of(&blocks[3]));
    assert!(c.receive_block(b4).is_ok());
    assert_eq!(
        c.latest_committed_blocks(),
        vec![blocks[2].id, blocks[1].id, BlockId::zeros()]
    );
}

#[test]
fn approve_votes_once_per_view() {
    let mut c = Carnot::from_genesis(node(1), genesis(), flat(2, 1, 1));
    let b1 = block(1, qc_of(&genesis()));
    c.receive_block(b1).unwrap();
    let out = c.approve_block(b1).expect("a first vote");
    assert_eq!(out.payload, Payload::Vote(Vote { view: 1, block: b1.id }));
    // root member: the vote goes to the leader of view 2 (nodes rotate by view)
    assert_eq!(out.to, vec![node(1)]);
    assert_eq!(c.highest_voted_view(), 1);
    assert!(c.approve_block(b1).is_none());
    assert_eq!(c.highest_voted_view(), 1);
}

#[test]
fn approve_needs_a_safe_block() {
    let mut c = Carnot::from_genesis(node(1), genesis(), flat(2, 1, 1));
    let b1 = block(1, qc_of(&genesis()));
    assert!(c.approve_block(b1).is_none());
    assert_eq!(c.highest_voted_view(), -1);
}

#[test]
fn leaf_member_votes_to_the_parent_committee() {
    let mut c = Carnot::from_genesis(node(4), genesis(), tree());
    let b1 = block(1, qc_of(&genesis()));
    c.receive_block(b1).unwrap();
    let out = c.approve_block(b1).unwrap();
    assert_eq!(out.to, vec![node(1), node(2)]);
}

#[test]
fn local_timeout_at_the_root() {
    let mut c = Carnot::from_genesis(node(2), genesis(), tree());
    chain(&mut c, 2);
    let out = c.local_timeout().expect("root members report timeouts");
    assert_eq!(c.highest_voted_view(), 2);
    assert_eq!(out.to, vec![node(1), node(2)]);
    assert_eq!(
        out.payload,
        Payload::Timeout(Timeout {
            view: 2,
            sender: node(2),
            high_qc: StandardQc { view: 1, id: bid(1) },
            timeout_qc: None,
        })
    );
}

#[test]
fn local_timeout_below_the_root_is_silent() {
    let mut c = Carnot::from_genesis(node(5), genesis(), tree());
    chain(&mut c, 1);
    assert!(c.local_timeout().is_none());
    assert_eq!(c.highest_voted_view(), 1);
}

#[test]
fn timeout_qc_moves_to_the_next_view() {
    let mut c = Carnot::from_genesis(node(1), genesis(), flat(4, 2, 3));
    let blocks = chain(&mut c, 4);
    let tqc = TimeoutQc {
        view: 5,
        high_qc: StandardQc { view: 4, id: blocks[4].id },
        sender: node(2),
    };
    c.receive_timeout_qc(tqc);
    assert_eq!(c.current_view(), 6);
    assert_eq!(c.last_view_timeout_qc(), Some(tqc));
    assert_eq!(c.high_qc(), StandardQc { view: 4, id: blocks[4].id });
    // a second delivery changes nothing
    c.receive_timeout_qc(tqc);
    assert_eq!(c.current_view(), 6);
    // a stale one does not move the view back
    let stale = TimeoutQc { view: 2, ..tqc };
    c.receive_timeout_qc(stale);
    assert_eq!(c.current_view(), 6);
    assert_eq!(c.last_view_timeout_qc(), Some(tqc));
}

#[test]
fn malformed_timeout_qc_is_ignored() {
    let mut c = Carnot::from_genesis(node(1), genesis(), flat(4, 2, 3));
    let bad = TimeoutQc { view: 1, high_qc: StandardQc { view: 7, id: bid(7) }, sender: node(2) };
    c.receive_timeout_qc(bad);
    assert_eq!(c.current_view(), 0);
    assert_eq!(c.last_view_timeout_qc(), None);
}

#[test]
fn new_view_after_timeout() {
    let mut c = Carnot::from_genesis(node(1), genesis(), flat(4, 2, 3));
    let blocks = chain(&mut c, 4);
    let q4 = StandardQc { view: 4, id: blocks[4].id };
    let tqc = TimeoutQc { view: 5, high_qc: q4, sender: node(2) };
    c.receive_timeout_qc(tqc);
    // the flat committee is a leaf: no new-view messages to wait for
    let out = c.approve_new_view(tqc, &vec![]).expect("a new view");
    // nothing is voted: the recovery block of view 6 is still to come
    assert_eq!(c.highest_voted_view(), -1);
    // from the root, to the leader of the view the recovery block will take
    assert_eq!(out.to, vec![c.overlay.leader(6)]);
    assert_eq!(
        out.payload,
        Payload::NewView(NewView { view: 6, sender: node(1), timeout_qc: tqc, high_qc: q4 })
    );
    let high = c.high_qc();
    assert!(c.approve_new_view(tqc, &vec![]).is_some());
    assert_eq!(c.high_qc(), high);
}

#[test]
fn new_view_needs_enough_children() {
    let mut c = Carnot::from_genesis(node(1), genesis(), tree());
    let tqc = TimeoutQc { view: 0, high_qc: StandardQc { view: 0, id: BlockId::zeros() }, sender: node(2) };
    c.receive_timeout_qc(tqc);
    assert_eq!(c.super_majority_threshold(), 3);
    let nv = NewView { view: 1, sender: node(3), timeout_qc: tqc, high_qc: tqc.high_qc };
    assert!(c.approve_new_view(tqc, &vec![nv, nv]).is_none());
    assert!(c.approve_new_view(tqc, &vec![nv, nv, nv]).is_some());
}

#[test]
fn root_timeout_builds_a_timeout_qc() {
    let mut c = Carnot::from_genesis(node(1), genesis(), flat(3, 2, 3));
    let blocks = chain(&mut c, 3);
    let t = |sender: u8, v: i64| Timeout {
        view: 3,
        sender: node(sender),
        high_qc: StandardQc { view: v, id: blocks[v as usize].id },
        timeout_qc: None,
    };
    let tqc = c.process_root_timeout(&vec![t(2, 1), t(3, 3)]).expect("a timeout QC");
    assert_eq!(tqc.view, 3);
    assert_eq!(tqc.high_qc.view, 3);
    assert_eq!(tqc.sender, node(1));
    let mut other_view = t(2, 1);
    other_view.view = 2;
    assert!(c.process_root_timeout(&vec![other_view]).is_none());
    assert!(c.process_root_timeout(&vec![]).is_none());
}

#[test]
fn recovery_block_after_timeout() {
    let mut c = Carnot::from_genesis(node(1), genesis(), flat(4, 2, 3));
    let blocks = chain(&mut c, 4);
    let q4 = StandardQc { view: 4, id: blocks[4].id };
    let tqc = TimeoutQc { view: 5, high_qc: q4, sender: node(2) };
    c.receive_timeout_qc(tqc);
    let b6 = block(6, Qc::Aggregated(AggregateQc { view: 5, high_qc: q4 }));
    assert!(c.receive_block(b6).is_ok());
    assert_eq!(c.current_view(), 6);
    assert_eq!(c.blocks_in_view(6), vec![b6]);
}

#[test]
fn overlay_queries() {
    let o = tree();
    assert!(o.is_member_of_root_committee(node(2)));
    assert!(!o.is_member_of_root_committee(node(3)));
    assert!(o.is_member_of_leaf_committee(node(6)));
    assert!(!o.is_member_of_leaf_committee(node(1)));
    assert!(o.is_child_of(node(5), node(1)));
    assert!(!o.is_child_of(node(5), node(3)));
    assert_eq!(o.parent_committee(node(3)), vec![node(1), node(2)]);
    assert!(o.parent_committee(node(1)).is_empty());
    assert_eq!(o.child_committees(node(1)).len(), 2);
    assert_eq!(o.leaf_committees(), vec![vec![node(3), node(4)], vec![node(5), node(6)]]);
    assert_eq!(o.self_committee(node(6)), vec![node(5), node(6)]);
    // 2/3 of the four child members, rounded up
    assert_eq!(o.super_majority_threshold(node(1)), 3);
    assert_eq!(o.super_majority_threshold(node(3)), 0);
    // 2/3 of the two root members
    assert_eq!(o.leader_super_majority_threshold(), 2);
    assert_eq!(o.leader(0), node(1));
    assert_eq!(o.leader(7), node(2));
}

#[test]
fn snapshot_reports_the_state() {
    let mut c = Carnot::from_genesis(node(1), genesis(), flat(2, 1, 1));
    let blocks = chain(&mut c, 3);
    let info = c.info();
    assert_eq!(info.id, node(1));
    assert_eq!(info.current_view, 3);
    assert_eq!(info.highest_voted_view, -1);
    assert_eq!(info.local_high_qc, StandardQc { view: 2, id: blocks[2].id });
    assert_eq!(info.safe_blocks, blocks);
    assert_eq!(info.last_view_timeout_qc, None);
    assert_eq!(info.committed_blocks, vec![blocks[1].id, BlockId::zeros()]);
}

#[test]
fn overlay_replacement_checks_usability() {
    let mut c = Carnot::from_genesis(node(1), genesis(), flat(2, 1, 1));
    let mut broken = flat(3, 1, 1);
    broken.threshold_den = 0;
    assert!(!c.update_overlay(broken));
    assert_eq!(c.overlay.nodes.len(), 2);
    assert!(c.update_overlay(tree()));
    assert_eq!(c.overlay.committees.len(), 3);
    assert_eq!(c.current_view(), 0);
}

#[test]
fn leadership_rotates_by_view() {
    let c = Carnot::from_genesis(node(2), genesis(), flat(3, 1, 1));
    assert!(c.is_leader_for(1));
    assert!(c.is_leader_for(4));
    assert!(!c.is_leader_for(2));
    assert!(c.is_next_leader());
    assert!(c.is_member_of_root_committee());
    assert_eq!(c.root_committee(), vec![node(1), node(2), node(3)]);
    assert_eq!(c.self_committee(), vec![node(1), node(2), node(3)]);
    assert_eq!(c.leader_super_majority_threshold(), 3);
}

#[test]
fn voted_view_never_falls() {
    let mut c = Carnot::from_genesis(node(1), genesis(), flat(3, 2, 3));
    let mut last = c.highest_voted_view();
    let mut check = |c: &Carnot| {
        assert!(c.highest_voted_view() >= last);
        last = c.highest_voted_view();
    };
    let blocks = chain(&mut c, 3);
    check(&c);
    c.approve_block(blocks[3]);
    check(&c);
    c.approve_block(blocks[2]);
    check(&c);
    c.local_timeout();
    check(&c);
    let tqc = TimeoutQc { view: 3, high_qc: StandardQc { view: 2, id: blocks[2].id }, sender: node(2) };
    c.receive_timeout_qc(tqc);
    check(&c);
    c.approve_new_view(tqc, &vec![]);
    check(&c);
    c.local_timeout();
    check(&c);
    assert_eq!(c.highest_voted_view(), 4);
}

#[test]
fn aggregated_parent_needs_a_recent_high_qc() {
    let mut c = Carnot::from_genesis(node(1), genesis(), flat(4, 2, 3));
    let blocks = chain(&mut c, 4);
    let q4 = StandardQc { view: 4, id: blocks[4].id };
    let q2 = StandardQc { view: 2, id: blocks[2].id };
    c.receive_timeout_qc(TimeoutQc { view: 5, high_qc: q4, sender: node(2) });
    let stale_high = block(6, Qc::Aggregated(AggregateQc { view: 5, high_qc: q2 }));
    assert!(c.receive_block(stale_high).is_err());
    let fresh = block(6, Qc::Aggregated(AggregateQc { view: 5, high_qc: q4 }));
    assert!(c.receive_block(fresh).is_ok());
}

#[test]
fn commits_only_move_forward_along_the_chain() {
    let mut c = Carnot::from_genesis(node(1), genesis(), flat(2, 1, 1));
    let blocks = chain(&mut c, 4);
    let before = c.latest_committed_blocks();
    assert_eq!(before, vec![blocks[2].id, blocks[1].id, BlockId::zeros()]);
    let b5 = block(5, qc_of(&blocks[4]));
    c.receive_block(b5).unwrap();
    let after = c.latest_committed_blocks();
    assert_eq!(after[1..], before[..]);
}
