use carnot::carnot::Carnot;
use carnot::messages::VoteMsg;
use carnot::orchestrator::{
    bootstrap, leader_tally_settings, process_event, proposal_header, tally_settings, Event,
    Output, Task,
};
use carnot::overlay::CommitteeOverlay;
use carnot::tally::{CarnotTally, Tally};
use carnot::types::{
    AggregateQc, Block, BlockId, LeaderProof, NewView, NodeId, Payload, Qc, StandardQc, Timeout,
};

fn node(i: usize) -> NodeId {
    NodeId::new([i as u8; 32])
}

fn bid(view: i64) -> BlockId {
    let mut b = [7u8; 32];
    b[0] = view as u8;
    BlockId::new(b)
}

fn genesis() -> Block {
    Block {
        id: BlockId::zeros(),
        view: 0,
        parent_qc: Qc::Standard(StandardQc { view: -1, id: BlockId::zeros() }),
        leader_proof: LeaderProof::LeaderId { leader_id: NodeId::new([0; 32]) },
    }
}

fn flat(n: usize, num: u64, den: u64) -> CommitteeOverlay {
    let nodes: Vec<NodeId> = (1..=n).map(node).collect();
    CommitteeOverlay {
        nodes: nodes.clone(),
        committees: vec![nodes],
        threshold_num: num,
        threshold_den: den,
    }
}

fn cluster(n: usize, num: u64, den: u64) -> Vec<Carnot> {
    (1..=n).map(|i| Carnot::from_genesis(node(i), genesis(), flat(n, num, den))).collect()
}

fn position(nodes: &[Carnot], id: NodeId) -> usize {
    nodes.iter().position(|c| c.id() == id).unwrap()
}

/// Every live node handles the proposal, certifies it at once (a flat committee
/// is a leaf) and votes; the leader of the next view tallies the votes into a QC.
fn round(nodes: &mut [Carnot], live: &[bool], block: Block) -> Option<Qc> {
    let next_leader = nodes[0].overlay.leader(block.view + 1);
    let leader_settings = leader_tally_settings(&nodes[position(nodes, next_leader)]);
    let mut votes: Tally<VoteMsg> = Tally::new(leader_settings.threshold);
    let mut qc = None;
    for (i, c) in nodes.iter_mut().enumerate() {
        if !live[i] {
            continue;
        }
        let reaction = process_event(c, Event::Proposal { block });
        let gathers = reaction
            .schedule
            .iter()
            .any(|s| s.task == Task::GatherVotes { block });
        assert!(gathers, "a new proposal schedules its vote gathering");
        let (cert, outcome) = CarnotTally::new(tally_settings(c)).tally(block, &vec![]).unwrap();
        let reaction = process_event(c, Event::Approve { qc: cert, block, votes: outcome });
        match reaction.output {
            Some(Output::Send(out)) => {
                assert_eq!(out.to, vec![next_leader]);
                let Payload::Vote(vote) = out.payload else { panic!("expected a vote") };
                let msg = VoteMsg { voter: c.id(), vote, qc: None };
                if let Some(_all) = votes.tally(vote.view, c.id(), msg) {
                    qc = Some(Qc::Standard(StandardQc { view: vote.view, id: vote.block }));
                }
            }
            _ => panic!("expected a vote"),
        }
    }
    qc
}

fn run_happy(n: usize, num: u64, den: u64, live: &[bool], target: i64) -> Vec<Carnot> {
    let mut nodes = cluster(n, num, den);
    let mut qc = Qc::Standard(StandardQc { view: 0, id: BlockId::zeros() });
    for view in 1..=target {
        let leader = nodes[0].overlay.leader(view);
        let block = proposal_header(leader, qc, bid(view)).unwrap();
        assert_eq!(block.view, view);
        qc = round(&mut nodes, live, block).expect("the next leader certifies the block");
    }
    nodes
}

#[test]
fn bootstrap_schedules_view_zero() {
    let c = Carnot::from_genesis(node(2), genesis(), flat(3, 2, 3));
    let tasks = bootstrap(&c);
    assert_eq!(tasks[0].task, Task::LocalTimeout { view: 0 });
    assert_eq!(tasks[1].task, Task::GatherBlock { view: 1 });
    assert!(tasks.iter().any(|s| s.task == Task::GatherVotes { block: genesis() }));
    // node 2 leads view 1 in a rotation that starts with node 1 at view 0
    assert!(tasks.iter().any(|s| s.task == Task::LeaderGatherVotes { block: genesis() }));
}

#[test]
fn two_nodes_reach_view_twenty() {
    let nodes = run_happy(2, 1, 1, &[true, true], 20);
    let at_20: Vec<Vec<Block>> = nodes.iter().map(|c| c.blocks_in_view(20)).collect();
    assert_eq!(at_20[0].len(), 1);
    assert_eq!(at_20[0], at_20[1]);
    assert!(nodes.iter().all(|c| c.current_view() == 20));
}

#[test]
fn ten_nodes_reach_view_twenty() {
    let nodes = run_happy(10, 1, 1, &[true; 10], 20);
    let first = nodes[0].blocks_in_view(20);
    assert_eq!(first.len(), 1);
    assert!(nodes.iter().all(|c| c.blocks_in_view(20) == first));
    assert_eq!(nodes[3].latest_committed_blocks().len(), 19);
}

#[test]
fn ten_nodes_one_down_with_nine_tenths() {
    let mut live = [true; 10];
    live[9] = false;
    let nodes = run_happy(10, 9, 10, &live, 20);
    let first = nodes[0].blocks_in_view(20);
    assert_eq!(first.len(), 1);
    assert!(nodes[..9].iter().all(|c| c.blocks_in_view(20) == first));
    assert!(nodes[9].blocks_in_view(20).is_empty());
}

#[test]
fn leader_timeout_recovery() {
    // the nodes are in view 5, holding the view-4 QC, and no proposal comes
    let mut nodes = run_happy(4, 2, 3, &[true; 4], 5);
    let q4 = StandardQc { view: 4, id: bid(4) };
    let threshold = nodes[0].leader_super_majority_threshold();
    let mut timeouts: Tally<Timeout> = Tally::new(threshold);
    let mut gathered = None;
    for c in nodes.iter_mut() {
        assert_eq!(c.current_view(), 5);
        assert_eq!(c.high_qc(), q4);
        let r = process_event(c, Event::LocalTimeout { view: 5 });
        assert!(r.schedule.iter().any(|s| s.task == Task::LocalTimeout { view: 5 }));
        assert_eq!(c.highest_voted_view(), 5);
        let Some(Output::Send(out)) = r.output else { panic!("root members report") };
        let Payload::Timeout(t) = out.payload else { panic!("expected a timeout") };
        assert_eq!(t.view, 5);
        assert_eq!(t.high_qc, q4);
        if let Some(all) = timeouts.tally(t.view, t.sender, t) {
            gathered = Some(all);
        }
    }
    let gathered = gathered.expect("enough timeouts");
    let r = process_event(&mut nodes[0], Event::RootTimeout { timeouts: gathered });
    let Some(Output::BroadcastTimeoutQc { timeout_qc }) = r.output else { panic!("a timeout QC") };
    assert_eq!(timeout_qc.view, 5);
    assert_eq!(timeout_qc.high_qc, q4);

    let leader = nodes[0].overlay.leader(6);
    let mut new_views: Tally<NewView> = Tally::new(threshold);
    let mut for_leader = None;
    for c in nodes.iter_mut() {
        let r = process_event(c, Event::TimeoutQc { timeout_qc });
        assert_eq!(r.cancel, Some(5));
        assert_eq!(c.current_view(), 6);
        assert!(r.schedule.iter().any(|s| s.task == Task::GatherNewViews { timeout_qc }));
        assert!(r.schedule.iter().any(|s| s.task == Task::GatherBlock { view: 6 }));
        let r = process_event(c, Event::NewView { timeout_qc, new_views: vec![] });
        let Some(Output::Send(out)) = r.output else { panic!("a new view") };
        assert_eq!(out.to, vec![leader]);
        let Payload::NewView(nv) = out.payload else { panic!("expected a new view") };
        if c.id() == leader {
            assert!(r
                .schedule
                .iter()
                .any(|s| s.task == Task::LeaderGatherNewViews { timeout_qc }));
        }
        if let Some(all) = new_views.tally(nv.view, nv.sender, nv) {
            for_leader = Some(all);
        }
    }
    let at = position(&nodes, leader);
    let r = process_event(
        &mut nodes[at],
        Event::LeaderNewViews { timeout_qc, new_views: for_leader.expect("enough new views") },
    );
    let Some(Output::BroadcastProposal { qc }) = r.output else { panic!("a proposal") };
    assert_eq!(qc, Qc::Aggregated(AggregateQc { view: 5, high_qc: q4 }));
    let block = proposal_header(leader, qc, bid(6)).unwrap();
    assert_eq!(block.view, 6);
    for c in nodes.iter_mut() {
        let r = process_event(c, Event::Proposal { block });
        assert!(r.schedule.iter().any(|s| s.task == Task::GatherVotes { block }));
        assert_eq!(c.blocks_in_view(6), vec![block]);
        let r = process_event(
            c,
            Event::Approve { qc: Qc::Standard(StandardQc { view: 6, id: block.id }), block, votes: vec![] },
        );
        assert!(matches!(r.output, Some(Output::Send(_))));
        assert_eq!(c.highest_voted_view(), 6);
    }
}

#[test]
fn duplicate_votes_propose_once() {
    let mut nodes = run_happy(2, 1, 2, &[true, true], 2);
    let b2 = nodes[0].blocks_in_view(2)[0];
    let leader = nodes[0].overlay.leader(3);
    let at = position(&nodes, leader);
    let settings = leader_tally_settings(&nodes[at]);
    assert_eq!(settings.threshold, 1);
    let mut tally: Tally<VoteMsg> = Tally::new(settings.threshold);
    let msg = VoteMsg { voter: node(1), vote: carnot::types::Vote { view: 2, block: b2.id }, qc: None };
    let mut proposals = 0;
    for _ in 0..100 {
        if tally.tally(2, msg.voter, msg).is_some() {
            let qc = Qc::Standard(StandardQc { view: 2, id: b2.id });
            let r = process_event(&mut nodes[at], Event::ProposeBlock { qc });
            if let Some(Output::BroadcastProposal { .. }) = r.output {
                proposals += 1;
            }
        }
    }
    assert_eq!(proposals, 1);
}

#[test]
fn stale_messages_change_nothing() {
    let mut nodes = run_happy(2, 1, 1, &[true, true], 10);
    let c = &mut nodes[0];
    let old_block = c.blocks_in_view(3)[0];
    let before = (c.current_view(), c.highest_voted_view(), c.high_qc(), c.safe_blocks.len());
    let r = process_event(
        c,
        Event::Approve {
            qc: Qc::Standard(StandardQc { view: 3, id: old_block.id }),
            block: old_block,
            votes: vec![],
        },
    );
    assert!(r.output.is_none() && r.schedule.is_empty() && r.cancel.is_none());
    let r = process_event(c, Event::LocalTimeout { view: 3 });
    assert!(r.output.is_none() && r.schedule.is_empty() && r.cancel.is_none());
    let r = process_event(c, Event::Proposal { block: old_block });
    assert!(r.output.is_none() && r.schedule.is_empty() && r.cancel.is_none());
    let after = (c.current_view(), c.highest_voted_view(), c.high_qc(), c.safe_blocks.len());
    assert_eq!(before, after);
}

#[test]
fn stale_approve_is_dropped_before_any_vote() {
    // the genesis vote gathering finishes only after a timeout QC moved the node on
    let mut c = Carnot::from_genesis(node(1), genesis(), flat(2, 1, 1));
    let timeout_qc = carnot::types::TimeoutQc {
        view: 0,
        high_qc: StandardQc { view: 0, id: BlockId::zeros() },
        sender: node(2),
    };
    process_event(&mut c, Event::TimeoutQc { timeout_qc });
    assert_eq!(c.current_view(), 1);
    let before = (c.current_view(), c.highest_voted_view(), c.high_qc(), c.safe_blocks.len());
    let r = process_event(
        &mut c,
        Event::Approve {
            qc: Qc::Standard(StandardQc { view: 0, id: BlockId::zeros() }),
            block: genesis(),
            votes: vec![],
        },
    );
    assert!(r.output.is_none() && r.schedule.is_empty() && r.cancel.is_none());
    assert_eq!(c.highest_voted_view(), -1);
    let after = (c.current_view(), c.highest_voted_view(), c.high_qc(), c.safe_blocks.len());
    assert_eq!(before, after);
    // a proposal over a QC two views back is stale too
    let old_qc = Qc::Standard(StandardQc { view: -1, id: BlockId::zeros() });
    assert!(process_event(&mut c, Event::ProposeBlock { qc: old_qc }).output.is_none());
}

#[test]
fn applying_a_block_twice_is_idempotent() {
    let mut nodes = run_happy(2, 1, 1, &[true, true], 3);
    let c = &mut nodes[1];
    let b4 = proposal_header(node(1), Qc::Standard(StandardQc { view: 3, id: bid(3) }), bid(4)).unwrap();
    c.receive_block(b4).unwrap();
    let once = (c.current_view(), c.high_qc(), c.safe_blocks.clone(), c.latest_committed_blocks());
    c.receive_block(b4).unwrap();
    let twice = (c.current_view(), c.high_qc(), c.safe_blocks.clone(), c.latest_committed_blocks());
    assert_eq!(once, twice);
}

#[test]
fn settings_and_defaults() {
    let s = carnot::orchestrator::CarnotSettings::new([4; 32], flat(2, 1, 1), 30);
    assert_eq!(s.private_key, [4; 32]);
    assert_eq!(s.timeout_secs, carnot::orchestrator::default_timeout());
    assert_eq!(carnot::orchestrator::default_timeout(), 30);
}

#[test]
fn proposal_headers() {
    let qc = Qc::Aggregated(AggregateQc { view: 5, high_qc: StandardQc { view: 3, id: bid(3) } });
    let b = proposal_header(node(2), qc, bid(6)).unwrap();
    assert_eq!(b.view, 6);
    assert_eq!(b.parent_qc, qc);
    assert_eq!(b.leader_proof, LeaderProof::LeaderId { leader_id: node(2) });
    let last = Qc::Standard(StandardQc { view: i64::MAX, id: bid(1) });
    assert!(proposal_header(node(2), last, bid(2)).is_none());
}

#[test]
fn view_change_cancels_and_reschedules() {
    let mut c = Carnot::from_genesis(node(1), genesis(), flat(2, 1, 1));
    let b1 = proposal_header(node(2), Qc::Standard(StandardQc { view: 0, id: BlockId::zeros() }), bid(1)).unwrap();
    let r = process_event(&mut c, Event::Proposal { block: b1 });
    assert_eq!(r.cancel, Some(0));
    let tasks: Vec<Task> = r.schedule.iter().map(|s| s.task).collect();
    assert_eq!(
        tasks,
        vec![
            Task::GatherVotes { block: b1 },
            // node 1 leads view 2 in a rotation of two
            Task::LeaderGatherVotes { block: b1 },
            Task::LocalTimeout { view: 1 },
            Task::GatherBlock { view: 2 },
            Task::GatherTimeoutQc { view: 1 },
            Task::GatherTimeouts { view: 1 },
        ]
    );
    // the same proposal again: nothing moves, the next proposal of view 1 is awaited
    let r = process_event(&mut c, Event::Proposal { block: b1 });
    assert_eq!(r.cancel, None);
    assert_eq!(
        r.schedule.iter().map(|s| s.task).collect::<Vec<_>>(),
        vec![Task::NextProposal { view: 1 }]
    );
    let r = process_event(&mut c, Event::Idle);
    assert!(r.output.is_none() && r.schedule.is_empty());
}
