//! The consensus state machine. Every transition is total: an input that fails
//! its checks leaves the state as it was.
use vstd::prelude::*;
use crate::block_tree::{
    ancestry, block_of, descends_from, lemma_ancestry_head, find_by_id, is_ancestor, find_by_view, find_ref, holds_id, holds_ref, holds_view, ids,
    lemma_block_of_unique, parents_held, refers_to, same_block, unique_ids, unique_views,
};
use crate::overlay::CommitteeOverlay;
use crate::types;
use crate::types::{
    higher_qc, max_qc, Block, BlockId, Committee, NewView, NodeId, Outgoing, Payload, Qc,
    StandardQc, Timeout, TimeoutQc, Vote,
};

verus! {

/// What the transitions change, as mathematical values.
pub struct CarnotState {
    pub current_view: types::View,
    pub highest_voted_view: types::View,
    pub local_high_qc: StandardQc,
    pub safe_blocks: Seq<Block>,
    pub last_view_timeout_qc: Option<TimeoutQc>,
    pub latest_committed: Block,
}

/// A block may extend its parent QC: a standard QC of the view before it, or an
/// aggregated QC of the view before it whose high QC is at least as recent as
/// ours.
pub open spec fn safety_rule(b: Block, local_high_qc: StandardQc) -> bool {
    match b.parent_qc {
        Qc::Standard(q) => b.view == q.view + 1,
        Qc::Aggregated(q) => b.view == q.view + 1 && q.high_qc.view >= local_high_qc.view,
    }
}

/// The checks a new block passes before it becomes safe.
pub open spec fn accepts(s: CarnotState, b: Block) -> bool {
    &&& b.parent_qc.wf()
    &&& b.view < i64::MAX
    &&& holds_ref(s.safe_blocks, b.parent_qc.high_qc_spec())
    &&& b.view > b.parent_qc.view_spec()
    &&& b.view >= s.current_view
    &&& safety_rule(b, s.local_high_qc)
    &&& !holds_id(s.safe_blocks, b.id)
    &&& !holds_view(s.safe_blocks, b.view)
}

/// The block that becomes committed when `b` arrives: its grandparent, where
/// parent and grandparent are linked by standard QCs of consecutive views.
pub open spec fn committed_by(blocks: Seq<Block>, b: Block) -> Option<Block> {
    match b.parent_qc {
        Qc::Standard(pq) => if holds_ref(blocks, pq) {
            match block_of(blocks, pq).parent_qc {
                Qc::Standard(gq) => if pq.view == gq.view + 1 && holds_ref(blocks, gq) {
                    Some(block_of(blocks, gq))
                } else {
                    None
                },
                Qc::Aggregated(_) => None,
            }
        } else {
            None
        },
        Qc::Aggregated(_) => None,
    }
}

pub open spec fn after_block(s: CarnotState, b: Block) -> CarnotState {
    CarnotState {
        current_view: if b.view > s.current_view {
            b.view
        } else {
            s.current_view
        },
        local_high_qc: max_qc(s.local_high_qc, b.parent_qc.high_qc_spec()),
        safe_blocks: s.safe_blocks.push(b),
        latest_committed: match committed_by(s.safe_blocks, b) {
            Some(g) => if g.view > s.latest_committed.view && is_ancestor(
                s.safe_blocks.push(b),
                s.latest_committed,
                g,
            ) {
                g
            } else {
                s.latest_committed
            },
            None => s.latest_committed,
        },
        ..s
    }
}

/// The state after receiving `b`, or `None` where it is rejected. A block that is
/// already safe changes nothing.
pub open spec fn on_block(s: CarnotState, b: Block) -> Option<CarnotState> {
    if s.safe_blocks.contains(b) {
        Some(s)
    } else if accepts(s, b) {
        Some(after_block(s, b))
    } else {
        None
    }
}

pub open spec fn can_approve(s: CarnotState, b: Block) -> bool {
    s.safe_blocks.contains(b) && b.view > s.highest_voted_view
}

pub open spec fn on_approve(s: CarnotState, b: Block) -> CarnotState {
    if can_approve(s, b) {
        CarnotState { highest_voted_view: b.view, ..s }
    } else {
        s
    }
}

pub open spec fn on_local_timeout(s: CarnotState) -> CarnotState {
    CarnotState {
        highest_voted_view: if s.current_view > s.highest_voted_view {
            s.current_view
        } else {
            s.highest_voted_view
        },
        ..s
    }
}

pub open spec fn valid_timeout_qc(t: TimeoutQc) -> bool {
    t.wf() && t.view < i64::MAX - 1
}

pub open spec fn on_timeout_qc(s: CarnotState, t: TimeoutQc) -> CarnotState {
    if !valid_timeout_qc(t) {
        s
    } else if t.view >= s.current_view {
        CarnotState {
            current_view: (t.view + 1) as i64,
            local_high_qc: max_qc(s.local_high_qc, t.high_qc),
            last_view_timeout_qc: Some(t),
            ..s
        }
    } else {
        CarnotState { local_high_qc: max_qc(s.local_high_qc, t.high_qc), ..s }
    }
}

/// The highest of `init` and the high QCs of `nvs`.
pub open spec fn max_new_view_qc(init: StandardQc, nvs: Seq<NewView>) -> StandardQc
    decreases nvs.len(),
{
    if nvs.len() == 0 {
        init
    } else {
        max_qc(max_new_view_qc(init, nvs.drop_last()), nvs.last().high_qc)
    }
}

/// The highest of `init` and the high QCs of `ts`.
pub open spec fn max_timeout_qc(init: StandardQc, ts: Seq<Timeout>) -> StandardQc
    decreases ts.len(),
{
    if ts.len() == 0 {
        init
    } else {
        max_qc(max_timeout_qc(init, ts.drop_last()), ts.last().high_qc)
    }
}

/// New-view messages that answer `t` and may be passed on: all at the view after
/// it, none with a high QC past that view, at least `threshold` of them.
pub open spec fn can_approve_new_view(
    s: CarnotState,
    t: TimeoutQc,
    nvs: Seq<NewView>,
    threshold: int,
) -> bool {
    &&& valid_timeout_qc(t)
    &&& t.view + 1 == s.current_view
    &&& s.highest_voted_view < t.view + 1
    &&& nvs.len() >= threshold
    &&& forall|i: int|
        0 <= i < nvs.len() ==> {
            &&& (#[trigger] nvs[i]).view == t.view + 1
            &&& nvs[i].timeout_qc.view == t.view
            &&& nvs[i].high_qc.view <= t.view + 1
        }
}

pub open spec fn on_new_views(
    s: CarnotState,
    t: TimeoutQc,
    nvs: Seq<NewView>,
    threshold: int,
) -> CarnotState {
    if can_approve_new_view(s, t, nvs, threshold) {
        CarnotState {
            local_high_qc: max_new_view_qc(max_qc(s.local_high_qc, t.high_qc), nvs),
            ..s
        }
    } else {
        s
    }
}

/// A block was rejected by the safety checks.
#[derive(Debug, Clone, Copy, PartialEq, Eq)]
pub struct Rejected;

/// A read-only snapshot of a node's consensus state.
#[derive(Clone, Debug, PartialEq, Eq)]
pub struct CarnotInfo {
    pub id: NodeId,
    pub current_view: types::View,
    pub highest_voted_view: types::View,
    pub local_high_qc: StandardQc,
    pub safe_blocks: Vec<Block>,
    pub last_view_timeout_qc: Option<TimeoutQc>,
    pub committed_blocks: Vec<BlockId>,
}

pub struct Carnot {
    pub id: NodeId,
    pub current_view: types::View,
    pub highest_voted_view: types::View,
    pub local_high_qc: StandardQc,
    pub safe_blocks: Vec<Block>,
    pub last_view_timeout_qc: Option<TimeoutQc>,
    pub latest_committed: Block,
    pub overlay: CommitteeOverlay,
}

/// The invariants of a state: one safe block per id and per view, the genesis
/// first, every other block's parent among the safe blocks, the high QC no newer
/// than the current view, no vote and no safe block past it, and the latest
/// committed block (past the genesis) older than it.
pub open spec fn state_wf(s: CarnotState) -> bool {
    &&& s.safe_blocks.len() > 0
    &&& s.safe_blocks[0].view == 0
    &&& unique_ids(s.safe_blocks)
    &&& unique_views(s.safe_blocks)
    &&& forall|i: int|
        0 <= i < s.safe_blocks.len() ==> 0 <= (#[trigger] s.safe_blocks[i]).view < i64::MAX
    &&& forall|i: int|
        0 < i < s.safe_blocks.len() ==> {
            &&& holds_ref(s.safe_blocks, (#[trigger] s.safe_blocks[i]).parent_qc.high_qc_spec())
            &&& s.safe_blocks[i].parent_qc.high_qc_spec().view < s.safe_blocks[i].view
        }
    &&& 0 <= s.current_view < i64::MAX
    &&& -1 <= s.highest_voted_view <= s.current_view
    &&& forall|i: int|
        0 <= i < s.safe_blocks.len() ==> (#[trigger] s.safe_blocks[i]).view <= s.current_view
    &&& s.local_high_qc.view <= s.current_view
    &&& s.safe_blocks.contains(s.latest_committed)
    &&& (s.latest_committed.view < s.current_view || s.latest_committed.view == 0)
}

proof fn lemma_push_unique(s: CarnotState, b: Block)
    requires
        state_wf(s),
        accepts(s, b),
    ensures
        unique_ids(s.safe_blocks.push(b)),
        unique_views(s.safe_blocks.push(b)),
{
    let nb = s.safe_blocks.push(b);
    let n = s.safe_blocks.len() as int;
    assert forall|i: int, j: int|
        0 <= i < nb.len() && 0 <= j < nb.len() && (#[trigger] nb[i]).id == (#[trigger] nb[j]).id
        implies i == j by {
        if i < n {
            assert(nb[i] == s.safe_blocks[i]);
        }
        if j < n {
            assert(nb[j] == s.safe_blocks[j]);
        }
    }
    assert forall|i: int, j: int|
        0 <= i < nb.len() && 0 <= j < nb.len() && (#[trigger] nb[i]).view == (
        #[trigger] nb[j]).view implies i == j by {
        if i < n {
            assert(nb[i] == s.safe_blocks[i]);
        }
        if j < n {
            assert(nb[j] == s.safe_blocks[j]);
        }
    }
}

proof fn lemma_committed_by_safe(s: CarnotState, b: Block)
    requires
        state_wf(s),
        accepts(s, b),
    ensures
        committed_by(s.safe_blocks, b) matches Some(g) ==> s.safe_blocks.contains(g) && g.view
            < b.view,
{
    if let Some(g) = committed_by(s.safe_blocks, b) {
        if let Qc::Standard(pq) = b.parent_qc {
            if let Qc::Standard(gq) = block_of(s.safe_blocks, pq).parent_qc {
                let k = choose|k: int|
                    0 <= k < s.safe_blocks.len() && refers_to(#[trigger] s.safe_blocks[k], gq);
                assert(s.safe_blocks[k] == g);
            }
        }
    }
}

/// A block that passes the checks keeps ids unique and parents held when added.
pub proof fn lemma_push_keeps_parents(s: CarnotState, b: Block)
    requires
        state_wf(s),
        accepts(s, b),
    ensures
        unique_ids(s.safe_blocks.push(b)),
        parents_held(s.safe_blocks),
{
    lemma_push_unique(s, b);
}

/// The latest committed block only moves to a descendant of itself.
pub proof fn lemma_commit_forward(s: CarnotState, b: Block)
    ensures
        on_block(s, b) matches Some(n) ==> is_ancestor(
            n.safe_blocks,
            s.latest_committed,
            n.latest_committed,
        ),
{
    lemma_ancestry_head(s.safe_blocks, s.latest_committed);
    lemma_ancestry_head(s.safe_blocks.push(b), s.latest_committed);
}

/// Accepting a block keeps the invariants.
proof fn lemma_after_block_wf(s: CarnotState, b: Block)
    requires
        state_wf(s),
        accepts(s, b),
    ensures
        state_wf(after_block(s, b)),
{
    lemma_push_unique(s, b);
    lemma_committed_by_safe(s, b);
    let s1 = after_block(s, b);
    let nb = s1.safe_blocks;
    let n = s.safe_blocks.len() as int;
    let pref = b.parent_qc.high_qc_spec();
    let pi = choose|w: int| 0 <= w < n && refers_to(#[trigger] s.safe_blocks[w], pref);
    assert forall|i: int| 0 < i < nb.len() implies holds_ref(
        nb,
        (#[trigger] nb[i]).parent_qc.high_qc_spec(),
    ) && nb[i].parent_qc.high_qc_spec().view < nb[i].view by {
        if i < n {
            assert(nb[i] == s.safe_blocks[i]);
            let w = choose|w: int|
                0 <= w < n && refers_to(
                    #[trigger] s.safe_blocks[w],
                    s.safe_blocks[i].parent_qc.high_qc_spec(),
                );
            assert(nb[w] == s.safe_blocks[w]);
        } else {
            assert(nb[i] == b);
            assert(nb[pi] == s.safe_blocks[pi]);
        }
    }
    assert forall|i: int| 0 <= i < nb.len() implies 0 <= (#[trigger] nb[i]).view < i64::MAX
        && nb[i].view <= s1.current_view by {
        if i < n {
            assert(nb[i] == s.safe_blocks[i]);
        }
    }
    assert(nb[0] == s.safe_blocks[0]);
    assert(s1.safe_blocks.contains(s1.latest_committed)) by {
        let lc = s1.latest_committed;
        let k = choose|k: int| 0 <= k < n && s.safe_blocks[k] == lc;
        assert(nb[k] == lc);
    }
}

impl View for Carnot {
    type V = CarnotState;

    open spec fn view(&self) -> CarnotState {
        CarnotState {
            current_view: self.current_view,
            highest_voted_view: self.highest_voted_view,
            local_high_qc: self.local_high_qc,
            safe_blocks: self.safe_blocks@,
            last_view_timeout_qc: self.last_view_timeout_qc,
            latest_committed: self.latest_committed,
        }
    }
}

impl Carnot {
    pub open spec fn wf(&self) -> bool {
        state_wf(self@) && self.overlay.wf()
    }

    /// Starts from the genesis block, which counts as certified and committed.
    pub fn from_genesis(id: NodeId, genesis: Block, overlay: CommitteeOverlay) -> (r: Carnot)
        requires
            genesis.view == 0,
            overlay.wf(),
        ensures
            r.wf(),
            r.id == id,
            r.overlay == overlay,
            r@.current_view == 0,
            r@.highest_voted_view == -1,
            r@.local_high_qc == (StandardQc { view: 0, id: genesis.id }),
            r@.safe_blocks == seq![genesis],
            r@.last_view_timeout_qc.is_none(),
            r@.latest_committed == genesis,
    {
        let mut safe_blocks: Vec<Block> = Vec::new();
        safe_blocks.push(genesis);
        let r = Carnot {
            id,
            current_view: 0,
            highest_voted_view: -1,
            local_high_qc: StandardQc { view: 0, id: genesis.id },
            safe_blocks,
            last_view_timeout_qc: None,
            latest_committed: genesis,
            overlay,
        };
        assert(r@.safe_blocks == seq![genesis]);
        assert(r@.safe_blocks[0] == genesis);
        r
    }

    fn find_committed(&self, b: &Block) -> (r: Option<Block>)
        requires
            self.wf(),
        ensures
            r == committed_by(self@.safe_blocks, *b),
            r matches Some(g) ==> self@.safe_blocks.contains(g),
    {
        let blocks = &self.safe_blocks;
        match b.parent_qc {
            Qc::Standard(pq) => match find_ref(blocks, pq) {
                Some(i) => {
                    proof {
                        lemma_block_of_unique(blocks@, pq, i as int);
                    }
                    let p = blocks[i];
                    assert(p.view >= 0);
                    match p.parent_qc {
                        Qc::Standard(gq) => {
                            if pq.view - 1 == gq.view {
                                match find_ref(blocks, gq) {
                                    Some(j) => {
                                        proof {
                                            lemma_block_of_unique(blocks@, gq, j as int);
                                        }
                                        assert(self@.safe_blocks[j as int] == blocks@[j as int]);
                                        Some(blocks[j])
                                    },
                                    None => None,
                                }
                            } else {
                                None
                            }
                        },
                        Qc::Aggregated(_) => None,
                    }
                },
                None => None,
            },
            Qc::Aggregated(_) => None,
        }
    }

    /// Whether `block`, not yet safe, passes the safety checks.
    fn passes_checks(&self, block: &Block) -> (r: bool)
        requires
            self.wf(),
        ensures
            r == accepts(self@, *block),
    {
        if !block.parent_qc.is_wf() || block.view == i64::MAX {
            return false;
        }
        let pref = block.parent_qc.high_qc();
        if find_ref(&self.safe_blocks, pref).is_none() {
            return false;
        }
        let qv = block.parent_qc.view();
        if block.view <= qv || block.view < self.current_view {
            return false;
        }
        let safe = match block.parent_qc {
            Qc::Standard(q) => block.view == q.view + 1,
            Qc::Aggregated(q) => block.view == q.view + 1 && q.high_qc.view
                >= self.local_high_qc.view,
        };
        if !safe {
            return false;
        }
        find_by_view(&self.safe_blocks, block.view).is_none() && find_by_id(
            &self.safe_blocks,
            block.id,
        ).is_none()
    }

    /// Makes an accepted block safe.
    fn insert_block(&mut self, block: Block)
        requires
            old(self).wf(),
            accepts(old(self)@, block),
        ensures
            final(self).wf(),
            final(self).id == old(self).id,
            final(self).overlay == old(self).overlay,
            final(self)@ == after_block(old(self)@, block),
    {
        let ghost s0 = self@;
        let committed = self.find_committed(&block);
        let pref = block.parent_qc.high_qc();
        self.safe_blocks.push(block);
        if block.view > self.current_view {
            self.current_view = block.view;
        }
        self.local_high_qc = higher_qc(self.local_high_qc, pref);
        proof {
            lemma_push_unique(s0, block);
        }
        match committed {
            Some(g) => {
                if g.view > self.latest_committed.view {
                    let latest = self.latest_committed;
                    if descends_from(&self.safe_blocks, &latest, &g) {
                        self.latest_committed = g;
                    }
                }
            },
            None => {},
        }
        proof {
            assert(self@ == after_block(s0, block));
            lemma_after_block_wf(s0, block);
        }
    }

    /// Checks `block` against the safety rules and, where it passes, makes it safe:
    /// the view moves up to it, the high QC to its parent's, and the two-chain rule
    /// may commit its grandparent. A block that is already safe is accepted again
    /// without change.
    pub fn receive_block(&mut self, block: Block) -> (r: Result<(), Rejected>)
        requires
            old(self).wf(),
        ensures
            final(self).wf(),
            final(self).id == old(self).id,
            final(self).overlay == old(self).overlay,
            match on_block(old(self)@, block) {
                Some(s) => r.is_ok() && final(self)@ == s,
                None => r.is_err() && final(self)@ == old(self)@,
            },
            is_ancestor(
                final(self)@.safe_blocks,
                old(self).latest_committed,
                final(self).latest_committed,
            ),
    {
        let ghost s0 = self@;
        proof {
            lemma_commit_forward(s0, block);
            lemma_ancestry_head(s0.safe_blocks, s0.latest_committed);
        }
        match find_by_id(&self.safe_blocks, block.id) {
            Some(i) => {
                if same_block(&self.safe_blocks[i], &block) {
                    assert(s0.safe_blocks[i as int] == block);
                    assert(s0.safe_blocks.contains(block));
                    return Ok(());
                } else {
                    assert(!s0.safe_blocks.contains(block)) by {
                        if s0.safe_blocks.contains(block) {
                            let j = choose|j: int|
                                0 <= j < s0.safe_blocks.len() && s0.safe_blocks[j] == block;
                            assert(s0.safe_blocks[j].id == s0.safe_blocks[i as int].id);
                        }
                    }
                    assert(holds_id(s0.safe_blocks, block.id));
                    return Err(Rejected);
                }
            },
            None => {},
        }
        assert(!s0.safe_blocks.contains(block)) by {
            if s0.safe_blocks.contains(block) {
                let j = choose|j: int| 0 <= j < s0.safe_blocks.len() && s0.safe_blocks[j] == block;
                assert(s0.safe_blocks[j].id == block.id);
            }
        }
        if !self.passes_checks(&block) {
            return Err(Rejected);
        }
        self.insert_block(block);
        Ok(())
    }

    pub fn contains_block(&self, b: &Block) -> (r: bool)
        requires
            self.wf(),
        ensures
            r == self@.safe_blocks.contains(*b),
    {
        match find_by_id(&self.safe_blocks, b.id) {
            Some(i) => {
                let same = same_block(&self.safe_blocks[i], b);
                assert(same ==> self@.safe_blocks[i as int] == *b);
                assert(!same ==> !self@.safe_blocks.contains(*b)) by {
                    if !same && self@.safe_blocks.contains(*b) {
                        let j = choose|j: int|
                            0 <= j < self@.safe_blocks.len() && self@.safe_blocks[j] == *b;
                        assert(self@.safe_blocks[j].id == self@.safe_blocks[i as int].id);
                    }
                }
                same
            },
            None => {
                assert(!self@.safe_blocks.contains(*b)) by {
                    if self@.safe_blocks.contains(*b) {
                        let j = choose|j: int|
                            0 <= j < self@.safe_blocks.len() && self@.safe_blocks[j] == *b;
                        assert(self@.safe_blocks[j].id == b.id);
                    }
                }
                false
            },
        }
    }

    /// Votes for a safe block of a view newer than any voted for: the vote goes up
    /// the tree and the highest voted view becomes the block's. Otherwise nothing.
    pub fn approve_block(&mut self, block: Block) -> (r: Option<Outgoing>)
        requires
            old(self).wf(),
        ensures
            final(self).wf(),
            final(self).id == old(self).id,
            final(self).overlay == old(self).overlay,
            final(self)@ == on_approve(old(self)@, block),
            can_approve(old(self)@, block) <==> r.is_some(),
            r matches Some(out) ==> {
                &&& out.payload == Payload::Vote(Vote { view: block.view, block: block.id })
                &&& out.to@ == old(self).overlay.upward_spec(
                    old(self).id,
                    (old(self).current_view + 1) as i64,
                )
                &&& block.view > old(self).highest_voted_view
                &&& final(self).highest_voted_view == block.view
            },
    {
        if !self.contains_block(&block) || block.view <= self.highest_voted_view {
            return None;
        }
        proof {
            let k = choose|k: int|
                0 <= k < self@.safe_blocks.len() && self@.safe_blocks[k] == block;
            assert(0 <= self@.safe_blocks[k].view < i64::MAX);
        }
        let to = self.overlay.upward(self.id, self.current_view + 1);
        self.highest_voted_view = block.view;
        Some(Outgoing { to, payload: Payload::Vote(Vote { view: block.view, block: block.id }) })
    }

    /// The local timer ran out: no vote is cast for the current view any more, and
    /// a root-committee member reports the timeout to its committee.
    pub fn local_timeout(&mut self) -> (r: Option<Outgoing>)
        requires
            old(self).wf(),
        ensures
            final(self).wf(),
            final(self).id == old(self).id,
            final(self).overlay == old(self).overlay,
            final(self)@ == on_local_timeout(old(self)@),
            final(self).highest_voted_view == old(self).current_view,
            r.is_some() == old(self).overlay.in_root(old(self).id),
            r matches Some(out) ==> {
                &&& out.to@ == old(self).overlay.committee(0)
                &&& out.payload == Payload::Timeout(
                    Timeout {
                        view: old(self).current_view,
                        sender: old(self).id,
                        high_qc: old(self).local_high_qc,
                        timeout_qc: old(self).last_view_timeout_qc,
                    },
                )
            },
    {
        if self.current_view > self.highest_voted_view {
            self.highest_voted_view = self.current_view;
        }
        if self.overlay.is_member_of_root_committee(self.id) {
            let timeout = Timeout {
                view: self.current_view,
                sender: self.id,
                high_qc: self.local_high_qc,
                timeout_qc: self.last_view_timeout_qc,
            };
            Some(Outgoing { to: self.overlay.root_committee(), payload: Payload::Timeout(timeout) })
        } else {
            None
        }
    }

    /// A timeout QC at or past the current view moves the node to the view after it
    /// and is kept as the last one; any valid one may raise the high QC.
    pub fn receive_timeout_qc(&mut self, timeout_qc: TimeoutQc)
        requires
            old(self).wf(),
        ensures
            final(self).wf(),
            final(self).id == old(self).id,
            final(self).overlay == old(self).overlay,
            final(self)@ == on_timeout_qc(old(self)@, timeout_qc),
    {
        if timeout_qc.high_qc.view > timeout_qc.view || timeout_qc.view >= i64::MAX - 1 {
            return ;
        }
        if timeout_qc.view >= self.current_view {
            self.current_view = timeout_qc.view + 1;
            self.last_view_timeout_qc = Some(timeout_qc);
        }
        self.local_high_qc = higher_qc(self.local_high_qc, timeout_qc.high_qc);
    }

    /// Passes a timeout on once enough children answered it with new-view
    /// messages: the high QC takes the highest among them and a new-view message
    /// goes up the tree (from the root, to the leader of the view after the
    /// timeout). Nothing is voted: the block of that view is still to come.
    pub fn approve_new_view(&mut self, timeout_qc: TimeoutQc, new_views: &Vec<NewView>) -> (r:
        Option<Outgoing>)
        requires
            old(self).wf(),
        ensures
            final(self).wf(),
            final(self).id == old(self).id,
            final(self).overlay == old(self).overlay,
            final(self)@ == on_new_views(
                old(self)@,
                timeout_qc,
                new_views@,
                old(self).overlay.super_majority_threshold_spec(old(self).id),
            ),
            r.is_some() == can_approve_new_view(
                old(self)@,
                timeout_qc,
                new_views@,
                old(self).overlay.super_majority_threshold_spec(old(self).id),
            ),
            r matches Some(out) ==> {
                &&& out.to@ == old(self).overlay.upward_spec(
                    old(self).id,
                    (timeout_qc.view + 1) as i64,
                )
                &&& out.payload == Payload::NewView(
                    NewView {
                        view: (timeout_qc.view + 1) as i64,
                        sender: old(self).id,
                        timeout_qc,
                        high_qc: final(self).local_high_qc,
                    },
                )
            },
    {
        if timeout_qc.high_qc.view > timeout_qc.view || timeout_qc.view >= i64::MAX - 1 {
            return None;
        }
        let new_view = timeout_qc.view + 1;
        if new_view != self.current_view || self.highest_voted_view >= new_view {
            return None;
        }
        if new_views.len() < self.overlay.super_majority_threshold(self.id) {
            return None;
        }
        let ghost init = max_qc(self.local_high_qc, timeout_qc.high_qc);
        let mut high = higher_qc(self.local_high_qc, timeout_qc.high_qc);
        let mut i: usize = 0;
        assert(high.view <= new_view);
        while i < new_views.len()
            invariant
                self.wf(),
                *self == *old(self),
                0 <= i <= new_views@.len(),
                new_view == timeout_qc.view + 1,
                high == max_new_view_qc(init, new_views@.subrange(0, i as int)),
                high.view <= new_view,
                init.view <= new_view,
                forall|j: int|
                    0 <= j < i ==> {
                        &&& (#[trigger] new_views@[j]).view == new_view
                        &&& new_views@[j].timeout_qc.view == timeout_qc.view
                        &&& new_views@[j].high_qc.view <= new_view
                    },
            decreases new_views@.len() - i,
        {
            let nv = new_views[i];
            if nv.view != new_view || nv.timeout_qc.view != timeout_qc.view || nv.high_qc.view
                > new_view {
                return None;
            }
            assert(new_views@.subrange(0, i + 1).drop_last() =~= new_views@.subrange(0, i as int));
            high = higher_qc(high, nv.high_qc);
            i += 1;
        }
        assert(new_views@.subrange(0, i as int) =~= new_views@);
        self.local_high_qc = high;
        let to = self.overlay.upward(self.id, new_view);
        let msg = NewView { view: new_view, sender: self.id, timeout_qc, high_qc: high };
        Some(Outgoing { to, payload: Payload::NewView(msg) })
    }

    /// At the root, turns enough timeouts for the current view into a timeout QC
    /// whose high QC is the highest known. Elsewhere, or for timeouts of another
    /// view, nothing.
    pub fn process_root_timeout(&self, timeouts: &Vec<Timeout>) -> (r: Option<TimeoutQc>)
        requires
            self.wf(),
        ensures
            r.is_some() <==> (self.overlay.in_root(self.id) && timeouts@.len() > 0 && forall|
                i: int,
            |
                0 <= i < timeouts@.len() ==> (#[trigger] timeouts@[i]).view == self.current_view
                    && timeouts@[i].high_qc.view <= self.current_view),
            r matches Some(t) ==> t == (TimeoutQc {
                view: self.current_view,
                high_qc: max_timeout_qc(self.local_high_qc, timeouts@),
                sender: self.id,
            }) && t.wf(),
    {
        if !self.overlay.is_member_of_root_committee(self.id) || timeouts.len() == 0 {
            return None;
        }
        let mut high = self.local_high_qc;
        let mut i: usize = 0;
        while i < timeouts.len()
            invariant
                self.wf(),
                0 <= i <= timeouts@.len(),
                high == max_timeout_qc(self.local_high_qc, timeouts@.subrange(0, i as int)),
                high.view <= self.current_view,
                forall|j: int|
                    0 <= j < i ==> (#[trigger] timeouts@[j]).view == self.current_view
                        && timeouts@[j].high_qc.view <= self.current_view,
            decreases timeouts@.len() - i,
        {
            let t = timeouts[i];
            if t.view != self.current_view || t.high_qc.view > self.current_view {
                return None;
            }
            assert(timeouts@.subrange(0, i + 1).drop_last() =~= timeouts@.subrange(0, i as int));
            high = higher_qc(high, t.high_qc);
            i += 1;
        }
        assert(timeouts@.subrange(0, i as int) =~= timeouts@);
        Some(TimeoutQc { view: self.current_view, high_qc: high, sender: self.id })
    }

    /// The latest committed block.
    pub fn latest_committed_block(&self) -> (r: Block)
        ensures
            r == self.latest_committed,
    {
        self.latest_committed
    }

    /// The committed blocks, newest first: the latest committed block and its
    /// ancestors.
    pub fn latest_committed_blocks(&self) -> (r: Vec<BlockId>)
        requires
            self.wf(),
        ensures
            r@ == ids(ancestry(self@.safe_blocks, self.latest_committed)),
    {
        let ghost blocks = self@.safe_blocks;
        let mut out: Vec<BlockId> = Vec::new();
        let mut cur = self.latest_committed;
        loop
            invariant
                unique_ids(blocks),
                blocks == self@.safe_blocks,
                out@ + ids(ancestry(blocks, cur)) == ids(ancestry(blocks, self.latest_committed)),
            decreases cur.view,
        {
            out.push(cur.id);
            let pref = cur.parent_qc.high_qc();
            match find_ref(&self.safe_blocks, pref) {
                Some(i) => {
                    proof {
                        lemma_block_of_unique(blocks, pref, i as int);
                    }
                    let p = self.safe_blocks[i];
                    if 0 <= p.view && p.view < cur.view {
                        assert(ancestry(blocks, cur) == seq![cur] + ancestry(blocks, p));
                        assert(ids(seq![cur] + ancestry(blocks, p)) =~= seq![cur.id] + ids(
                            ancestry(blocks, p),
                        ));
                        assert(out@ + ids(ancestry(blocks, p)) =~= out@.drop_last() + ids(
                            ancestry(blocks, cur),
                        ));
                        cur = p;
                    } else {
                        assert(ancestry(blocks, cur) == seq![cur]);
                        assert(ids(seq![cur]) =~= seq![cur.id]);
                        assert(out@ =~= out@.drop_last() + ids(ancestry(blocks, cur)));
                        return out;
                    }
                },
                None => {
                    assert(ancestry(blocks, cur) == seq![cur]);
                    assert(ids(seq![cur]) =~= seq![cur.id]);
                    assert(out@ =~= out@.drop_last() + ids(ancestry(blocks, cur)));
                    return out;
                },
            }
        }
    }

    /// The snapshot answered to an introspection query.
    pub fn info(&self) -> (r: CarnotInfo)
        requires
            self.wf(),
        ensures
            r.id == self.id,
            r.current_view == self.current_view,
            r.highest_voted_view == self.highest_voted_view,
            r.local_high_qc == self.local_high_qc,
            r.safe_blocks@ == self.safe_blocks@,
            r.last_view_timeout_qc == self.last_view_timeout_qc,
            r.committed_blocks@ == ids(ancestry(self@.safe_blocks, self.latest_committed)),
    {
        CarnotInfo {
            id: self.id,
            current_view: self.current_view,
            highest_voted_view: self.highest_voted_view,
            local_high_qc: self.local_high_qc,
            safe_blocks: self.safe_blocks.clone(),
            last_view_timeout_qc: self.last_view_timeout_qc,
            committed_blocks: self.latest_committed_blocks(),
        }
    }

    /// Replaces the overlay, where the new one is usable; returns whether it did.
    pub fn update_overlay(&mut self, overlay: CommitteeOverlay) -> (r: bool)
        requires
            old(self).wf(),
        ensures
            final(self).wf(),
            final(self).id == old(self).id,
            final(self)@ == old(self)@,
            r == overlay.wf(),
            r ==> final(self).overlay == overlay,
            !r ==> final(self).overlay == old(self).overlay,
    {
        if overlay.nodes.len() == 0 || overlay.committees.len() == 0 || overlay.committees.len()
            >= 0x4000_0000 || overlay.threshold_den == 0 || overlay.threshold_num
            > overlay.threshold_den {
            return false;
        }
        let mut k: usize = 0;
        while k < overlay.committees.len()
            invariant
                old(self).wf(),
                *self == *old(self),
                0 <= k <= overlay.count(),
                forall|j: int| 0 <= j < k ==> #[trigger] overlay.committee(j).len() < 0x2000_0000,
            decreases overlay.count() - k,
        {
            if overlay.committees[k].len() >= 0x2000_0000 {
                assert(overlay.committee(k as int).len() >= 0x2000_0000);
                return false;
            }
            k += 1;
        }
        self.overlay = overlay;
        true
    }

    pub fn id(&self) -> (r: NodeId)
        ensures
            r == self.id,
    {
        self.id
    }

    pub fn current_view(&self) -> (r: types::View)
        ensures
            r == self.current_view,
    {
        self.current_view
    }

    pub fn highest_voted_view(&self) -> (r: types::View)
        ensures
            r == self.highest_voted_view,
    {
        self.highest_voted_view
    }

    pub fn high_qc(&self) -> (r: StandardQc)
        ensures
            r == self.local_high_qc,
    {
        self.local_high_qc
    }

    pub fn last_view_timeout_qc(&self) -> (r: Option<TimeoutQc>)
        ensures
            r == self.last_view_timeout_qc,
    {
        self.last_view_timeout_qc
    }

    pub fn genesis_block(&self) -> (r: Block)
        requires
            self.wf(),
        ensures
            r == self@.safe_blocks[0],
    {
        self.safe_blocks[0]
    }

    /// The safe blocks at view `v`: at most one.
    pub fn blocks_in_view(&self, v: types::View) -> (r: Vec<Block>)
        requires
            self.wf(),
        ensures
            r@.len() <= 1,
            r@.len() == 1 <==> holds_view(self@.safe_blocks, v),
            r@.len() == 1 ==> r@[0].view == v && self@.safe_blocks.contains(r@[0]),
    {
        let mut r: Vec<Block> = Vec::new();
        match find_by_view(&self.safe_blocks, v) {
            Some(i) => {
                r.push(self.safe_blocks[i]);
                assert(self@.safe_blocks[i as int] == r@[0]);
            },
            None => {},
        }
        r
    }

    pub fn is_leader_for(&self, view: types::View) -> (r: bool)
        requires
            self.wf(),
            view >= 0,
        ensures
            r == (self.overlay.leader_spec(view) == self.id),
    {
        self.overlay.leader(view) == self.id
    }

    pub fn is_next_leader(&self) -> (r: bool)
        requires
            self.wf(),
        ensures
            r == (self.overlay.leader_spec((self.current_view + 1) as i64) == self.id),
    {
        self.overlay.leader(self.current_view + 1) == self.id
    }

    pub fn is_member_of_root_committee(&self) -> (r: bool)
        requires
            self.wf(),
        ensures
            r == self.overlay.in_root(self.id),
    {
        self.overlay.is_member_of_root_committee(self.id)
    }

    pub fn self_committee(&self) -> (r: Committee)
        requires
            self.wf(),
        ensures
            r@ == self.overlay.self_committee_spec(self.id),
    {
        self.overlay.self_committee(self.id)
    }

    pub fn root_committee(&self) -> (r: Committee)
        requires
            self.wf(),
        ensures
            r@ == self.overlay.committee(0),
    {
        self.overlay.root_committee()
    }

    pub fn super_majority_threshold(&self) -> (r: usize)
        requires
            self.wf(),
        ensures
            r as int == self.overlay.super_majority_threshold_spec(self.id),
    {
        self.overlay.super_majority_threshold(self.id)
    }

    pub fn leader_super_majority_threshold(&self) -> (r: usize)
        requires
            self.wf(),
        ensures
            r as int == self.overlay.leader_super_majority_threshold_spec(),
    {
        self.overlay.leader_super_majority_threshold()
    }
}

} // verus!
