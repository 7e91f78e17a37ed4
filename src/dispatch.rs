//! Turns state-machine outputs into deliveries: one unicast per committee member,
//! or one broadcast.
use vstd::prelude::*;
use crate::messages::{NetworkMessage, NewViewMsg, TimeoutMsg, TimeoutQcMsg, VoteMsg};
use crate::orchestrator::Output;
use crate::types::{NodeId, Payload, Qc};

verus! {

#[derive(Clone, Debug)]
pub enum Delivery {
    Unicast { to: NodeId, message: NetworkMessage },
    Broadcast { message: NetworkMessage },
    /// Encode the block over `qc` into chunks and broadcast them.
    BroadcastProposal { qc: Qc },
}

/// The message that carries `payload` from `sender`.
pub open spec fn wire_message(sender: NodeId, payload: Payload) -> NetworkMessage {
    match payload {
        Payload::Vote(vote) => NetworkMessage::Vote(VoteMsg { voter: sender, vote, qc: None }),
        Payload::Timeout(vote) => NetworkMessage::Timeout(TimeoutMsg { voter: sender, vote }),
        Payload::NewView(vote) => NetworkMessage::NewView(NewViewMsg { voter: sender, vote }),
    }
}

pub fn message_of(sender: NodeId, payload: Payload) -> (r: NetworkMessage)
    ensures
        r == wire_message(sender, payload),
{
    match payload {
        Payload::Vote(vote) => NetworkMessage::Vote(VoteMsg { voter: sender, vote, qc: None }),
        Payload::Timeout(vote) => NetworkMessage::Timeout(TimeoutMsg { voter: sender, vote }),
        Payload::NewView(vote) => NetworkMessage::NewView(NewViewMsg { voter: sender, vote }),
    }
}

/// The deliveries that carry `output` of node `id`.
pub fn dispatch(id: NodeId, output: Output) -> (r: Vec<Delivery>)
    ensures
        match output {
            Output::Send(o) => r@.len() == o.to@.len() && forall|i: int|
                0 <= i < r@.len() ==> #[trigger] r@[i] == (Delivery::Unicast {
                    to: o.to@[i],
                    message: wire_message(id, o.payload),
                }),
            Output::BroadcastTimeoutQc { timeout_qc } => r@ == seq![
                Delivery::Broadcast {
                    message: NetworkMessage::TimeoutQc(TimeoutQcMsg { source: id, qc: timeout_qc }),
                },
            ],
            Output::BroadcastProposal { qc } => r@ == seq![Delivery::BroadcastProposal { qc }],
        },
{
    let mut r: Vec<Delivery> = Vec::new();
    match output {
        Output::Send(o) => {
            let mut i: usize = 0;
            while i < o.to.len()
                invariant
                    0 <= i <= o.to@.len(),
                    r@.len() == i,
                    forall|j: int|
                        0 <= j < i ==> #[trigger] r@[j] == (Delivery::Unicast {
                            to: o.to@[j],
                            message: wire_message(id, o.payload),
                        }),
                decreases o.to@.len() - i,
            {
                r.push(Delivery::Unicast { to: o.to[i], message: message_of(id, o.payload) });
                i += 1;
            }
        },
        Output::BroadcastTimeoutQc { timeout_qc } => {
            r.push(
                Delivery::Broadcast {
                    message: NetworkMessage::TimeoutQc(TimeoutQcMsg { source: id, qc: timeout_qc }),
                },
            );
            assert(r@ =~= seq![
                Delivery::Broadcast {
                    message: NetworkMessage::TimeoutQc(TimeoutQcMsg { source: id, qc: timeout_qc }),
                },
            ]);
        },
        Output::BroadcastProposal { qc } => {
            r.push(Delivery::BroadcastProposal { qc });
            assert(r@ =~= seq![Delivery::BroadcastProposal { qc }]);
        },
    }
    r
}

} // verus!
