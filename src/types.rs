//! Identifiers, certificates, blocks and the messages exchanged by the consensus engine.
use vstd::prelude::*;

verus! {

/// A round number. `-1` stands for "never voted".
pub type View = i64;

/// Compares two 32-byte identifiers byte by byte.
pub fn bytes_equal(a: &[u8; 32], b: &[u8; 32]) -> (r: bool)
    ensures
        r == (*a == *b),
{
    let mut i: usize = 0;
    while i < 32
        invariant
            0 <= i <= 32,
            forall|j: int| 0 <= j < i ==> a[j] == b[j],
        decreases 32 - i,
    {
        if a[i] != b[i] {
            return false;
        }
        i += 1;
    }
    assert(*a =~= *b);
    true
}

/// A participant of the protocol, identified by 32 bytes.
#[derive(Clone, Copy, Debug, Eq, Hash)]
pub struct NodeId(pub [u8; 32]);

impl NodeId {
    pub fn new(bytes: [u8; 32]) -> (r: NodeId)
        ensures
            r.0 == bytes,
    {
        NodeId(bytes)
    }
}

impl PartialEq for NodeId {
    fn eq(&self, o: &NodeId) -> (r: bool) {
        bytes_equal(&self.0, &o.0)
    }
}

impl vstd::std_specs::cmp::PartialEqSpecImpl for NodeId {
    open spec fn obeys_eq_spec() -> bool {
        true
    }

    open spec fn eq_spec(&self, o: &NodeId) -> bool {
        self == o
    }
}

/// The content hash of a block.
#[derive(Clone, Copy, Debug, Eq, Hash)]
pub struct BlockId(pub [u8; 32]);

impl BlockId {
    pub fn new(bytes: [u8; 32]) -> (r: BlockId)
        ensures
            r.0 == bytes,
    {
        BlockId(bytes)
    }

    pub fn zeros() -> (r: BlockId)
        ensures
            forall|i: int| 0 <= i < 32 ==> r.0[i] == 0u8,
    {
        BlockId([0u8; 32])
    }
}

impl PartialEq for BlockId {
    fn eq(&self, o: &BlockId) -> (r: bool) {
        bytes_equal(&self.0, &o.0)
    }
}

impl vstd::std_specs::cmp::PartialEqSpecImpl for BlockId {
    open spec fn obeys_eq_spec() -> bool {
        true
    }

    open spec fn eq_spec(&self, o: &BlockId) -> bool {
        self == o
    }
}

/// A set of nodes, without repetitions in practice.
pub type Committee = Vec<NodeId>;

/// Certifies that a super-majority voted for `id` at `view`.
#[derive(Clone, Copy, Debug, PartialEq, Eq, Hash)]
pub struct StandardQc {
    pub view: View,
    pub id: BlockId,
}

/// Certifies that `view` timed out; carries the highest standard QC known to the
/// nodes that moved on.
#[derive(Clone, Copy, Debug, PartialEq, Eq, Hash)]
pub struct AggregateQc {
    pub high_qc: StandardQc,
    pub view: View,
}

#[derive(Clone, Copy, Debug, PartialEq, Eq, Hash)]
pub enum Qc {
    Standard(StandardQc),
    Aggregated(AggregateQc),
}

impl Qc {
    pub open spec fn view_spec(self) -> View {
        match self {
            Qc::Standard(q) => q.view,
            Qc::Aggregated(q) => q.view,
        }
    }

    /// The standard QC through which this QC reaches a block.
    pub open spec fn high_qc_spec(self) -> StandardQc {
        match self {
            Qc::Standard(q) => q,
            Qc::Aggregated(q) => q.high_qc,
        }
    }

    /// An aggregated QC never carries a high QC newer than itself.
    pub open spec fn wf(self) -> bool {
        match self {
            Qc::Standard(_) => true,
            Qc::Aggregated(q) => q.high_qc.view <= q.view,
        }
    }

    pub fn view(&self) -> (r: View)
        ensures
            r == self.view_spec(),
    {
        match self {
            Qc::Standard(q) => q.view,
            Qc::Aggregated(q) => q.view,
        }
    }

    pub fn high_qc(&self) -> (r: StandardQc)
        ensures
            r == self.high_qc_spec(),
    {
        match self {
            Qc::Standard(q) => *q,
            Qc::Aggregated(q) => q.high_qc,
        }
    }

    pub fn is_wf(&self) -> (r: bool)
        ensures
            r == self.wf(),
    {
        match self {
            Qc::Standard(_) => true,
            Qc::Aggregated(q) => q.high_qc.view <= q.view,
        }
    }
}

#[derive(Clone, Copy, Debug, PartialEq, Eq, Hash)]
pub enum LeaderProof {
    LeaderId { leader_id: NodeId },
}

/// A block header: what the state machine reads of a proposal.
#[derive(Clone, Copy, Debug, PartialEq, Eq, Hash)]
pub struct Block {
    pub id: BlockId,
    pub view: View,
    pub parent_qc: Qc,
    pub leader_proof: LeaderProof,
}

#[derive(Clone, Copy, Debug, PartialEq, Eq, Hash)]
pub struct Vote {
    pub view: View,
    pub block: BlockId,
}

/// Certifies that a super-majority of the root committee timed out at `view`.
#[derive(Clone, Copy, Debug, PartialEq, Eq, Hash)]
pub struct TimeoutQc {
    pub view: View,
    pub high_qc: StandardQc,
    pub sender: NodeId,
}

impl TimeoutQc {
    /// The high QC is no newer than the view that timed out.
    pub open spec fn wf(self) -> bool {
        self.high_qc.view <= self.view
    }
}

#[derive(Clone, Copy, Debug, PartialEq, Eq, Hash)]
pub struct Timeout {
    pub view: View,
    pub sender: NodeId,
    pub high_qc: StandardQc,
    pub timeout_qc: Option<TimeoutQc>,
}

#[derive(Clone, Copy, Debug, PartialEq, Eq, Hash)]
pub struct NewView {
    pub view: View,
    pub sender: NodeId,
    pub timeout_qc: TimeoutQc,
    pub high_qc: StandardQc,
}

#[derive(Clone, Copy, Debug, PartialEq, Eq, Hash)]
pub enum Payload {
    Vote(Vote),
    Timeout(Timeout),
    NewView(NewView),
}

/// A message to be sent to every member of `to`.
#[derive(Clone, Debug, PartialEq, Eq)]
pub struct Outgoing {
    pub to: Committee,
    pub payload: Payload,
}

/// The standard QC with the higher view; `a` on a tie.
pub open spec fn max_qc(a: StandardQc, b: StandardQc) -> StandardQc {
    if b.view > a.view {
        b
    } else {
        a
    }
}

pub fn higher_qc(a: StandardQc, b: StandardQc) -> (r: StandardQc)
    ensures
        r == max_qc(a, b),
{
    if b.view > a.view {
        b
    } else {
        a
    }
}

} // verus!
