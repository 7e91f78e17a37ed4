use carnot::dispatch::{dispatch, Delivery};
use carnot::messages::{NetworkMessage, TimeoutQcMsg, VoteMsg};
use carnot::orchestrator::Output;
use carnot::tasks::TaskManager;
use carnot::types::{BlockId, NodeId, Outgoing, Payload, Qc, StandardQc, TimeoutQc, Vote};

fn node(i: u8) -> NodeId {
    NodeId::new([i; 32])
}

#[test]
fn cancel_drops_one_view() {
    let mut tm: TaskManager<&str> = TaskManager::new();
    tm.push(1, "timer");
    tm.push(2, "gather");
    tm.push(1, "votes");
    tm.cancel(1);
    assert_eq!(tm.len(), 1);
    assert_eq!(tm.next(), Some((2, "gather")));
    assert_eq!(tm.next(), None);
}

#[test]
fn next_takes_the_oldest() {
    let mut tm: TaskManager<u8> = TaskManager::new();
    tm.push(5, 1);
    tm.push(3, 2);
    assert_eq!(tm.next(), Some((5, 1)));
    tm.cancel(9);
    assert_eq!(tm.next(), Some((3, 2)));
}

#[test]
fn send_is_one_unicast_per_member() {
    let vote = Vote { view: 4, block: BlockId::new([4; 32]) };
    let out = Output::Send(Outgoing { to: vec![node(2), node(3)], payload: Payload::Vote(vote) });
    let d = dispatch(node(1), out);
    assert_eq!(d.len(), 2);
    for (delivery, to) in d.iter().zip([node(2), node(3)]) {
        match delivery {
            Delivery::Unicast { to: t, message } => {
                assert_eq!(*t, to);
                assert_eq!(*message, NetworkMessage::Vote(VoteMsg { voter: node(1), vote, qc: None }));
            }
            _ => panic!("expected a unicast"),
        }
    }
}

#[test]
fn timeout_qc_is_broadcast() {
    let tqc = TimeoutQc { view: 2, high_qc: StandardQc { view: 1, id: BlockId::zeros() }, sender: node(1) };
    let d = dispatch(node(1), Output::BroadcastTimeoutQc { timeout_qc: tqc });
    assert_eq!(d.len(), 1);
    match &d[0] {
        Delivery::Broadcast { message } => assert_eq!(
            *message,
            NetworkMessage::TimeoutQc(TimeoutQcMsg { source: node(1), qc: tqc })
        ),
        _ => panic!("expected a broadcast"),
    }
}

#[test]
fn proposal_is_handed_on() {
    let qc = Qc::Standard(StandardQc { view: 1, id: BlockId::zeros() });
    let d = dispatch(node(1), Output::BroadcastProposal { qc });
    assert!(matches!(d[0], Delivery::BroadcastProposal { qc: q } if q == qc));
}
