//! Plain values of the simulator: node and committee numbers, step durations,
//! per-view overlays, and the ward that stops a run at a view.
use vstd::prelude::*;
use crate::tree_overlay::Layout;

verus! {

/// A simulated node, numbered from zero.
#[derive(Clone, Copy, Debug, PartialEq, Eq, PartialOrd, Ord, Hash, Structural)]
pub struct NodeId(pub usize);

impl NodeId {
    pub fn new(id: usize) -> (r: NodeId)
        ensures
            r.0 == id,
    {
        NodeId(id)
    }

    pub fn inner(&self) -> (r: usize)
        ensures
            r == self.0,
    {
        self.0
    }
}

impl From<usize> for NodeId {
    fn from(id: usize) -> (r: NodeId) {
        NodeId(id)
    }
}

impl vstd::std_specs::convert::FromSpecImpl<usize> for NodeId {
    open spec fn obeys_from_spec() -> bool {
        true
    }

    open spec fn from_spec(id: usize) -> NodeId {
        NodeId(id)
    }
}

#[derive(Clone, Copy, Debug, PartialEq, Eq, PartialOrd, Ord, Hash, Structural)]
pub struct CommitteeId(pub usize);

impl CommitteeId {
    pub fn new(id: usize) -> (r: CommitteeId)
        ensures
            r.0 == id,
    {
        CommitteeId(id)
    }
}

impl From<usize> for CommitteeId {
    fn from(id: usize) -> (r: CommitteeId) {
        CommitteeId(id)
    }
}

impl vstd::std_specs::convert::FromSpecImpl<usize> for CommitteeId {
    open spec fn obeys_from_spec() -> bool {
        true
    }

    open spec fn from_spec(id: usize) -> CommitteeId {
        CommitteeId(id)
    }
}

/// The time a simulated step takes, as whole seconds and the nanoseconds beyond.
#[derive(Clone, Copy, Debug, PartialEq, Eq, PartialOrd, Ord, Hash, Structural)]
pub struct StepTime {
    pub secs: u64,
    pub nanos: u32,
}

impl StepTime {
    pub open spec fn wf(&self) -> bool {
        self.nanos < 1_000_000_000
    }

    /// The length in nanoseconds.
    pub open spec fn total_nanos(&self) -> int {
        self.secs as int * 1_000_000_000 + self.nanos as int
    }

    pub fn new(secs: u64, nanos: u32) -> (r: StepTime)
        requires
            nanos < 1_000_000_000,
        ensures
            r.wf(),
            r.secs == secs,
            r.nanos == nanos,
    {
        StepTime { secs, nanos }
    }

    /// The seconds and the nanoseconds beyond them.
    pub fn into_inner(&self) -> (r: (u64, u32))
        ensures
            r == (self.secs, self.nanos),
    {
        (self.secs, self.nanos)
    }

    pub fn from_millis(millis: u64) -> (r: StepTime)
        ensures
            r.wf(),
            r.total_nanos() == millis as int * 1_000_000,
    {
        let secs = millis / 1000;
        let rest = millis % 1000;
        StepTime { secs, nanos: (rest * 1_000_000) as u32 }
    }

    pub fn from_secs(secs: u64) -> (r: StepTime)
        ensures
            r.wf(),
            r.total_nanos() == secs as int * 1_000_000_000,
    {
        StepTime { secs, nanos: 0 }
    }
}

/// How long a simulated round took.
#[derive(Clone, Copy, Debug)]
pub struct Report {
    pub round_time: StepTime,
}

#[derive(Clone, Copy, Debug, PartialEq, Eq)]
pub enum NodeSettings {
    Carnot,
    Dummy,
}

#[derive(Clone, Copy, Debug, PartialEq, Eq, Hash)]
pub enum Region {
    NorthAmerica,
    Europe,
    Asia,
    Africa,
    SouthAmerica,
    Australia,
}

/// The leaders and the committee layout of one view.
#[derive(Debug)]
pub struct ViewOverlay {
    pub leaders: Vec<NodeId>,
    pub layout: Layout,
}

/// How nodes are interconnected: every node, and the overlay of each view by
/// index.
#[derive(Debug)]
pub struct OverlayState {
    pub all_nodes: Vec<NodeId>,
    pub overlays: Vec<ViewOverlay>,
}

impl OverlayState {
    pub fn get_view(&self, index: usize) -> (r: Option<&ViewOverlay>)
        ensures
            index < self.overlays@.len() ==> r == Some(&self.overlays@[index as int]),
            index >= self.overlays@.len() ==> r is None,
    {
        if index < self.overlays.len() {
            Some(&self.overlays[index])
        } else {
            None
        }
    }
}

/// Lets a run go on while every node is below `max_view`.
#[derive(Clone, Copy, Debug)]
pub struct MaxViewWard {
    pub max_view: usize,
}

impl MaxViewWard {
    pub fn new(max_view: usize) -> (r: MaxViewWard)
        ensures
            r.max_view == max_view,
    {
        MaxViewWard { max_view }
    }

    /// `true` while every node's current view is below the bound; `false` once
    /// one of them reaches it.
    pub fn analyze(&mut self, current_views: &Vec<usize>) -> (r: bool)
        ensures
            *final(self) == *old(self),
            r == forall|i: int|
                0 <= i < current_views@.len() ==> #[trigger] current_views@[i] < old(self).max_view,
    {
        let mut i: usize = 0;
        while i < current_views.len()
            invariant
                *self == *old(self),
                0 <= i <= current_views@.len(),
                forall|j: int| 0 <= j < i ==> #[trigger] current_views@[j] < self.max_view,
            decreases current_views@.len() - i,
        {
            if current_views[i] >= self.max_view {
                return false;
            }
            i += 1;
        }
        true
    }
}

} // verus!
