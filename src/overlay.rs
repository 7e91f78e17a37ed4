//! The committee overlay: a fixed tree of committees, stored by index. Committee 0
//! is the root; the children of committee `k` are `2k + 1` and `2k + 2` where they
//! exist, and a committee without children is a leaf. Leaders rotate over all
//! nodes, one per view.
use vstd::prelude::*;
use crate::types;
use crate::types::{Committee, NodeId};

verus! {

/// The first committee at or after `k` that holds `id`, or `-1`.
pub open spec fn index_from(cs: Seq<Vec<NodeId>>, id: NodeId, k: int) -> int
    decreases cs.len() - k,
{
    if k < 0 || k >= cs.len() {
        -1
    } else if cs[k]@.contains(id) {
        k
    } else {
        index_from(cs, id, k + 1)
    }
}

/// `size * num / den`, rounded up.
pub open spec fn apply_threshold(size: int, num: int, den: int) -> int {
    (size * num + den - 1) / den
}

pub fn contains_node(c: &Vec<NodeId>, id: NodeId) -> (r: bool)
    ensures
        r == c@.contains(id),
{
    let mut i: usize = 0;
    while i < c.len()
        invariant
            0 <= i <= c@.len(),
            forall|j: int| 0 <= j < i ==> c@[j] != id,
        decreases c@.len() - i,
    {
        if c[i] == id {
            assert(c@[i as int] == id);
            return true;
        }
        i += 1;
    }
    false
}

pub fn copy_committee(c: &Vec<NodeId>) -> (r: Committee)
    ensures
        r@ == c@,
{
    c.clone()
}

pub struct CommitteeOverlay {
    /// Every node, in the order in which leadership rotates.
    pub nodes: Vec<NodeId>,
    /// The committees, indexed as a complete binary tree.
    pub committees: Vec<Committee>,
    /// Thresholds are `num / den` of the committees they count, rounded up.
    pub threshold_num: u64,
    pub threshold_den: u64,
}

impl CommitteeOverlay {
    pub open spec fn wf(&self) -> bool {
        &&& self.nodes@.len() > 0
        &&& self.committees@.len() > 0
        &&& self.committees@.len() < 0x4000_0000
        &&& self.threshold_den > 0
        &&& self.threshold_num <= self.threshold_den
        &&& forall|k: int| 0 <= k < self.count() ==> #[trigger] self.committee(k).len() < 0x2000_0000
    }

    pub open spec fn count(&self) -> int {
        self.committees@.len() as int
    }

    pub open spec fn committee(&self, k: int) -> Seq<NodeId> {
        self.committees@[k]@
    }

    /// The committee of `id` (the first that holds it), or `-1`.
    pub open spec fn index_of(&self, id: NodeId) -> int {
        index_from(self.committees@, id, 0)
    }

    pub open spec fn is_leaf_index(&self, k: int) -> bool {
        2 * k + 1 >= self.count()
    }

    pub open spec fn in_root(&self, id: NodeId) -> bool {
        self.committee(0).contains(id)
    }

    pub open spec fn in_leaf(&self, id: NodeId) -> bool {
        self.index_of(id) >= 0 && self.is_leaf_index(self.index_of(id))
    }

    pub open spec fn self_committee_spec(&self, id: NodeId) -> Seq<NodeId> {
        if self.index_of(id) >= 0 {
            self.committee(self.index_of(id))
        } else {
            Seq::empty()
        }
    }

    pub open spec fn parent_committee_spec(&self, id: NodeId) -> Seq<NodeId> {
        if self.index_of(id) > 0 {
            self.committee((self.index_of(id) - 1) / 2)
        } else {
            Seq::empty()
        }
    }

    /// How many nodes sit in the children of committee `k`.
    pub open spec fn children_size(&self, k: int) -> int {
        (if 2 * k + 1 < self.count() {
            self.committee(2 * k + 1).len() as int
        } else {
            0
        }) + (if 2 * k + 2 < self.count() {
            self.committee(2 * k + 2).len() as int
        } else {
            0
        })
    }

    pub open spec fn threshold_of(&self, size: int) -> int {
        apply_threshold(size, self.threshold_num as int, self.threshold_den as int)
    }

    /// Votes a member of `id`'s committee waits for from its children: none in a leaf.
    pub open spec fn super_majority_threshold_spec(&self, id: NodeId) -> int {
        if self.index_of(id) < 0 || self.is_leaf_index(self.index_of(id)) {
            0
        } else {
            self.threshold_of(self.children_size(self.index_of(id)))
        }
    }

    /// Votes the next leader waits for from the root committee.
    pub open spec fn leader_super_majority_threshold_spec(&self) -> int {
        self.threshold_of(self.committee(0).len() as int)
    }

    pub open spec fn leader_spec(&self, view: types::View) -> NodeId
        recommends
            view >= 0,
    {
        self.nodes@[(view as int) % (self.nodes@.len() as int)]
    }

    /// Where a vote or a new-view of `id` goes: to the next leader from the root,
    /// to the parent committee from anywhere else.
    pub open spec fn upward_spec(&self, id: NodeId, next_view: types::View) -> Seq<NodeId> {
        if self.in_root(id) {
            seq![self.leader_spec(next_view)]
        } else {
            self.parent_committee_spec(id)
        }
    }

    pub fn committee_index(&self, id: NodeId) -> (r: Option<usize>)
        ensures
            match r {
                Some(k) => k as int == self.index_of(id) && 0 <= k < self.count(),
                None => self.index_of(id) == -1,
            },
    {
        let mut k: usize = 0;
        while k < self.committees.len()
            invariant
                0 <= k <= self.count(),
                index_from(self.committees@, id, 0) == index_from(self.committees@, id, k as int),
            decreases self.count() - k,
        {
            if contains_node(&self.committees[k], id) {
                return Some(k);
            }
            k += 1;
        }
        None
    }

    pub fn is_member_of_root_committee(&self, id: NodeId) -> (r: bool)
        requires
            self.wf(),
        ensures
            r == self.in_root(id),
    {
        contains_node(&self.committees[0], id)
    }

    pub fn is_member_of_leaf_committee(&self, id: NodeId) -> (r: bool)
        requires
            self.wf(),
        ensures
            r == self.in_leaf(id),
    {
        match self.committee_index(id) {
            Some(k) => 2 * k + 1 >= self.committees.len(),
            None => false,
        }
    }

    /// Whether the committee of `child` is a child of the committee of `parent`.
    pub fn is_child_of(&self, child: NodeId, parent: NodeId) -> (r: bool)
        requires
            self.wf(),
        ensures
            r == (self.index_of(child) > 0 && self.index_of(parent) >= 0 && (self.index_of(
                child,
            ) - 1) / 2 == self.index_of(parent)),
    {
        match (self.committee_index(child), self.committee_index(parent)) {
            (Some(c), Some(p)) => c > 0 && (c - 1) / 2 == p,
            _ => false,
        }
    }

    pub fn root_committee(&self) -> (r: Committee)
        requires
            self.wf(),
        ensures
            r@ == self.committee(0),
    {
        copy_committee(&self.committees[0])
    }

    pub fn self_committee(&self, id: NodeId) -> (r: Committee)
        requires
            self.wf(),
        ensures
            r@ == self.self_committee_spec(id),
    {
        match self.committee_index(id) {
            Some(k) => copy_committee(&self.committees[k]),
            None => Vec::new(),
        }
    }

    pub fn parent_committee(&self, id: NodeId) -> (r: Committee)
        requires
            self.wf(),
        ensures
            r@ == self.parent_committee_spec(id),
    {
        match self.committee_index(id) {
            Some(k) => if k > 0 {
                copy_committee(&self.committees[(k - 1) / 2])
            } else {
                Vec::new()
            },
            None => Vec::new(),
        }
    }

    /// The committees whose parent is the committee of `id`, left child first.
    pub fn child_committees(&self, id: NodeId) -> (r: Vec<Committee>)
        requires
            self.wf(),
        ensures
            self.index_of(id) < 0 ==> r@.len() == 0,
            self.index_of(id) >= 0 ==> {
                let k = self.index_of(id);
                &&& r@.len() == (if 2 * k + 2 < self.count() {
                    2int
                } else if 2 * k + 1 < self.count() {
                    1int
                } else {
                    0int
                })
                &&& forall|i: int| 0 <= i < r@.len() ==> r@[i]@ == self.committee(2 * k + 1 + i)
            },
    {
        let mut r: Vec<Committee> = Vec::new();
        match self.committee_index(id) {
            Some(k) => {
                if 2 * k + 1 < self.committees.len() {
                    r.push(copy_committee(&self.committees[2 * k + 1]));
                }
                if 2 * k + 2 < self.committees.len() {
                    r.push(copy_committee(&self.committees[2 * k + 2]));
                }
            },
            None => {},
        }
        r
    }

    /// Every committee without children, in index order.
    pub fn leaf_committees(&self) -> (r: Vec<Committee>)
        requires
            self.wf(),
        ensures
            r@.len() == self.count() - self.count() / 2,
            forall|i: int| 0 <= i < r@.len() ==> r@[i]@ == self.committee(self.count() / 2 + i),
    {
        let mut r: Vec<Committee> = Vec::new();
        let n = self.committees.len();
        let mut k: usize = n / 2;
        while k < n
            invariant
                n == self.count(),
                n / 2 <= k <= n,
                r@.len() == k - n / 2,
                forall|i: int| 0 <= i < r@.len() ==> r@[i]@ == self.committee(n / 2 + i),
            decreases n - k,
        {
            r.push(copy_committee(&self.committees[k]));
            k += 1;
        }
        r
    }

    fn threshold(&self, size: u128) -> (r: usize)
        requires
            self.wf(),
            size < 0x4000_0000,
        ensures
            r as int == self.threshold_of(size as int),
    {
        let num = self.threshold_num as u128;
        let den = self.threshold_den as u128;
        let s = size;
        proof {
            let (si, ni, di) = (s as int, num as int, den as int);
            assert(si * ni <= si * di) by (nonlinear_arith)
                requires
                    0 <= si,
                    ni <= di,
            ;
            assert(si * di <= 0x4000_0000int * 0xFFFF_FFFF_FFFF_FFFFint) by (nonlinear_arith)
                requires
                    0 <= si <= 0x4000_0000int,
                    0 <= di <= 0xFFFF_FFFF_FFFF_FFFFint,
            ;
            let q = (si * ni + di - 1) / di;
            assert(q <= si) by (nonlinear_arith)
                requires
                    q == (si * ni + di - 1) / di,
                    si * ni <= si * di,
                    di > 0,
                    si >= 0,
            ;
        }
        let t = (s * num + (den - 1)) / den;
        t as usize
    }

    pub fn super_majority_threshold(&self, id: NodeId) -> (r: usize)
        requires
            self.wf(),
        ensures
            r as int == self.super_majority_threshold_spec(id),
    {
        match self.committee_index(id) {
            Some(k) => {
                if 2 * k + 1 >= self.committees.len() {
                    0
                } else {
                    let left = self.committees[2 * k + 1].len();
                    let right = if 2 * k + 2 < self.committees.len() {
                        self.committees[2 * k + 2].len()
                    } else {
                        0
                    };
                    assert(self.committee(2 * k + 1).len() < 0x2000_0000);
                    assert(2 * k + 2 < self.count() ==> self.committee(2 * k + 2).len()
                        < 0x2000_0000);
                    self.threshold(left as u128 + right as u128)
                }
            },
            None => 0,
        }
    }

    pub fn leader_super_majority_threshold(&self) -> (r: usize)
        requires
            self.wf(),
        ensures
            r as int == self.leader_super_majority_threshold_spec(),
    {
        assert(self.committee(0).len() < 0x2000_0000);
        self.threshold(self.committees[0].len() as u128)
    }

    pub fn leader(&self, view: types::View) -> (r: NodeId)
        requires
            self.wf(),
            view >= 0,
        ensures
            r == self.leader_spec(view),
    {
        let n = self.nodes.len();
        let v = view as u64;
        let i = (v % (n as u64)) as usize;
        self.nodes[i]
    }

    pub fn upward(&self, id: NodeId, next_view: types::View) -> (r: Committee)
        requires
            self.wf(),
            next_view >= 0,
        ensures
            r@ == self.upward_spec(id, next_view),
    {
        if self.is_member_of_root_committee(id) {
            let mut r: Committee = Vec::new();
            r.push(self.leader(next_view));
            assert(r@ =~= seq![self.leader_spec(next_view)]);
            r
        } else {
            self.parent_committee(id)
        }
    }
}

} // verus!
