//! The messages nodes exchange. Their encoding belongs to the network adapter.
use vstd::prelude::*;
use crate::types;
use crate::types::{BlockId, NewView, NodeId, Qc, Timeout, TimeoutQc, Vote};

verus! {

/// One chunk of an encoded proposal, tagged with the block id and view.
#[derive(Clone, Debug, PartialEq, Eq, Hash)]
pub struct ProposalChunkMsg {
    pub chunk: Vec<u8>,
    pub proposal: BlockId,
    pub view: types::View,
}

#[derive(Clone, Copy, Debug, PartialEq, Eq, Hash)]
pub struct VoteMsg {
    pub voter: NodeId,
    pub vote: Vote,
    pub qc: Option<Qc>,
}

#[derive(Clone, Copy, Debug, PartialEq, Eq, Hash)]
pub struct NewViewMsg {
    pub voter: NodeId,
    pub vote: NewView,
}

#[derive(Clone, Copy, Debug, PartialEq, Eq, Hash)]
pub struct TimeoutMsg {
    pub voter: NodeId,
    pub vote: Timeout,
}

#[derive(Clone, Copy, Debug, PartialEq, Eq, Hash)]
pub struct TimeoutQcMsg {
    pub source: NodeId,
    pub qc: TimeoutQc,
}

#[derive(Clone, Debug, PartialEq, Eq, Hash)]
pub enum NetworkMessage {
    Vote(VoteMsg),
    NewView(NewViewMsg),
    Timeout(TimeoutMsg),
    TimeoutQc(TimeoutQcMsg),
    ProposalChunk(ProposalChunkMsg),
}

} // verus!
