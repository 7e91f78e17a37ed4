//! Threshold tallies: per-view accumulators keyed by sender, the vote tally that
//! certifies a block, and a plain counting tally.
use vstd::prelude::*;
use crate::messages::{NewViewMsg, TimeoutMsg, VoteMsg};
use crate::overlay::contains_node;
use crate::types;
use crate::types::{Block, NewView, NodeId, Qc, StandardQc, Timeout, TimeoutQc, Vote};

verus! {

/// The senders of `s` in order of first appearance, each once.
pub open spec fn distinct(s: Seq<NodeId>) -> Seq<NodeId>
    decreases s.len(),
{
    if s.len() == 0 {
        Seq::empty()
    } else {
        let prev = distinct(s.drop_last());
        if prev.contains(s.last()) {
            prev
        } else {
            prev.push(s.last())
        }
    }
}

/// What an accumulator knows of one view: who was counted, and whether the
/// threshold was reached already.
pub struct TallyCount {
    pub senders: Seq<NodeId>,
    pub done: bool,
}

pub open spec fn empty_count() -> TallyCount {
    TallyCount { senders: Seq::empty(), done: false }
}

/// One message from `sender` arrives: the new count, and whether this message
/// makes the threshold.
pub open spec fn count_step(c: TallyCount, sender: NodeId, threshold: int) -> (TallyCount, bool) {
    if c.done || c.senders.contains(sender) {
        (c, false)
    } else if c.senders.len() + 1 == threshold {
        (TallyCount { senders: c.senders.push(sender), done: true }, true)
    } else {
        (TallyCount { senders: c.senders.push(sender), done: false }, false)
    }
}

/// The count after messages from `senders`, in order, from an empty accumulator.
pub open spec fn count_run(senders: Seq<NodeId>, threshold: int) -> TallyCount
    decreases senders.len(),
{
    if senders.len() == 0 {
        empty_count()
    } else {
        count_step(count_run(senders.drop_last(), threshold), senders.last(), threshold).0
    }
}

pub struct TallyEntry<M> {
    pub view: types::View,
    pub senders: Vec<NodeId>,
    pub messages: Vec<M>,
    pub done: bool,
}

/// Accumulates messages per view until a threshold of distinct senders is met.
pub struct Tally<M> {
    pub entries: Vec<TallyEntry<M>>,
    pub threshold: usize,
}

impl<M> Tally<M> {
    pub open spec fn wf(&self) -> bool {
        forall|i: int, j: int|
            0 <= i < self.entries@.len() && 0 <= j < self.entries@.len() && (
            #[trigger] self.entries@[i]).view == (#[trigger] self.entries@[j]).view ==> i == j
    }

    pub open spec fn has_entry(&self, v: types::View) -> bool {
        exists|i: int| 0 <= i < self.entries@.len() && (#[trigger] self.entries@[i]).view == v
    }

    pub open spec fn entry_index(&self, v: types::View) -> int {
        choose|i: int| 0 <= i < self.entries@.len() && (#[trigger] self.entries@[i]).view == v
    }

    /// The count held for view `v`.
    pub open spec fn count_of(&self, v: types::View) -> TallyCount {
        if self.has_entry(v) {
            let e = self.entries@[self.entry_index(v)];
            TallyCount { senders: e.senders@, done: e.done }
        } else {
            empty_count()
        }
    }

    /// The messages held for view `v` and not yet handed out.
    pub open spec fn messages_of(&self, v: types::View) -> Seq<M> {
        if self.has_entry(v) {
            self.entries@[self.entry_index(v)].messages@
        } else {
            Seq::empty()
        }
    }

    pub fn new(threshold: usize) -> (r: Tally<M>)
        ensures
            r.wf(),
            r.threshold == threshold,
            forall|v: types::View| #[trigger] r.count_of(v) == empty_count(),
    {
        Tally { entries: Vec::new(), threshold }
    }

    proof fn lemma_index(&self, i: int)
        requires
            self.wf(),
            0 <= i < self.entries@.len(),
        ensures
            self.has_entry(self.entries@[i].view),
            self.entry_index(self.entries@[i].view) == i,
    {
        let v = self.entries@[i].view;
        assert(self.has_entry(v));
        let k = self.entry_index(v);
        assert(self.entries@[k].view == v);
    }

    fn find(&self, v: types::View) -> (r: Option<usize>)
        requires
            self.wf(),
        ensures
            match r {
                Some(i) => i < self.entries@.len() && self.has_entry(v) && self.entry_index(v)
                    == i,
                None => !self.has_entry(v),
            },
    {
        let mut i: usize = 0;
        while i < self.entries.len()
            invariant
                self.wf(),
                0 <= i <= self.entries@.len(),
                forall|j: int| 0 <= j < i ==> (#[trigger] self.entries@[j]).view != v,
            decreases self.entries@.len() - i,
        {
            if self.entries[i].view == v {
                proof {
                    self.lemma_index(i as int);
                }
                return Some(i);
            }
            i += 1;
        }
        None
    }

    /// Adds `message` from `sender` to the accumulator of `view`. Returns every
    /// message held for the view exactly when this one brings the number of
    /// distinct senders to `threshold`; later messages for the view return `None`.
    /// A second message from a counted sender is not counted.
    pub fn tally_by(&mut self, view: types::View, sender: NodeId, message: M, threshold: usize) -> (r:
        Option<Vec<M>>)
        requires
            old(self).wf(),
        ensures
            final(self).wf(),
            final(self).threshold == old(self).threshold,
            final(self).count_of(view) == count_step(
                old(self).count_of(view),
                sender,
                threshold as int,
            ).0,
            r.is_some() == count_step(old(self).count_of(view), sender, threshold as int).1,
            r matches Some(ms) ==> ms@ == old(self).messages_of(view).push(message),
            final(self).messages_of(view) == if count_step(
                old(self).count_of(view),
                sender,
                threshold as int,
            ).1 {
                Seq::empty()
            } else if !old(self).count_of(view).done && !old(self).count_of(
                view,
            ).senders.contains(sender) {
                old(self).messages_of(view).push(message)
            } else {
                old(self).messages_of(view)
            },
            forall|v: types::View|
                v != view ==> #[trigger] final(self).count_of(v) == old(self).count_of(v),
            forall|v: types::View|
                v != view ==> #[trigger] final(self).messages_of(v) == old(self).messages_of(v),
    {
        let ghost old_self = *self;
        let i = match self.find(view) {
            Some(i) => i,
            None => {
                self.entries.push(
                    TallyEntry { view, senders: Vec::new(), messages: Vec::new(), done: false },
                );
                let i = self.entries.len() - 1;
                proof {
                    assert forall|a: int, b: int|
                        0 <= a < self.entries@.len() && 0 <= b < self.entries@.len() && (
                        #[trigger] self.entries@[a]).view == (#[trigger] self.entries@[b]).view
                        implies a == b by {
                        if a < i && b < i {
                            assert(self.entries@[a] == old_self.entries@[a]);
                            assert(self.entries@[b] == old_self.entries@[b]);
                        } else if a < i {
                            assert(self.entries@[a] == old_self.entries@[a]);
                            assert(old_self.has_entry(view));
                        } else if b < i {
                            assert(self.entries@[b] == old_self.entries@[b]);
                            assert(old_self.has_entry(view));
                        }
                    }
                    self.lemma_index(i as int);
                    assert forall|v: types::View| v != view implies #[trigger] self.count_of(v)
                        == old_self.count_of(v) && self.messages_of(v) == old_self.messages_of(v) by {
                        if old_self.has_entry(v) {
                            let k = old_self.entry_index(v);
                            assert(self.entries@[k] == old_self.entries@[k]);
                            self.lemma_index(k);
                        } else {
                            if self.has_entry(v) {
                                let k = self.entry_index(v);
                                if k < i {
                                    assert(self.entries@[k] == old_self.entries@[k]);
                                }
                            }
                        }
                    }
                    assert forall|v: types::View| v != view implies self.count_of(v)
                        == old_self.count_of(v) && #[trigger] self.messages_of(v) == old_self.messages_of(v) by {
                        if old_self.has_entry(v) {
                            let k = old_self.entry_index(v);
                            assert(self.entries@[k] == old_self.entries@[k]);
                            self.lemma_index(k);
                        } else {
                            if self.has_entry(v) {
                                let k = self.entry_index(v);
                                if k < i {
                                    assert(self.entries@[k] == old_self.entries@[k]);
                                }
                            }
                        }
                    }
                    assert(self.count_of(view).senders =~= Seq::<NodeId>::empty());
                    assert(self.messages_of(view) =~= Seq::<M>::empty());
                }
                i
            },
        };
        let ghost mid = *self;
        assert(mid.count_of(view) == old_self.count_of(view));
        assert(mid.messages_of(view) == old_self.messages_of(view));
        assert(forall|v: types::View|
            v != view ==> #[trigger] mid.messages_of(v) == old_self.messages_of(v));
        let e = self.entries.remove(i);
        let TallyEntry { view: ev, senders, messages, done } = e;
        let mut senders = senders;
        let mut messages = messages;
        let counted = contains_node(&senders, sender);
        let fired;
        let new_done;
        if done || counted {
            fired = false;
            new_done = done;
        } else {
            senders.push(sender);
            messages.push(message);
            fired = senders.len() == threshold;
            new_done = fired;
        }
        let out;
        if fired {
            out = Some(messages);
            messages = Vec::new();
        } else {
            out = None;
        }
        self.entries.insert(i, TallyEntry { view: ev, senders, messages, done: new_done });
        proof {
            assert(self.entries@ =~= mid.entries@.update(i as int, self.entries@[i as int]));
            assert forall|a: int, b: int|
                0 <= a < self.entries@.len() && 0 <= b < self.entries@.len() && (
                #[trigger] self.entries@[a]).view == (#[trigger] self.entries@[b]).view implies a
                == b by {
                assert(self.entries@[a].view == mid.entries@[a].view);
                assert(self.entries@[b].view == mid.entries@[b].view);
            }
            self.lemma_index(i as int);
            assert forall|v: types::View| v != view implies #[trigger] self.count_of(v)
                == mid.count_of(v) && self.messages_of(v) == mid.messages_of(v) by {
                if mid.has_entry(v) {
                    let k = mid.entry_index(v);
                    assert(self.entries@[k] == mid.entries@[k]);
                    self.lemma_index(k);
                } else if self.has_entry(v) {
                    let k = self.entry_index(v);
                    assert(self.entries@[k].view == mid.entries@[k].view);
                }
            }
            assert forall|v: types::View| v != view implies self.count_of(v)
                == mid.count_of(v) && #[trigger] self.messages_of(v) == mid.messages_of(v) by {
                if mid.has_entry(v) {
                    let k = mid.entry_index(v);
                    assert(self.entries@[k] == mid.entries@[k]);
                    self.lemma_index(k);
                } else if self.has_entry(v) {
                    let k = self.entry_index(v);
                    assert(self.entries@[k].view == mid.entries@[k].view);
                }
            }
        }
        out
    }

    /// `tally_by` with the accumulator's own threshold.
    pub fn tally(&mut self, view: types::View, sender: NodeId, message: M) -> (r: Option<Vec<M>>)
        requires
            old(self).wf(),
        ensures
            final(self).wf(),
            final(self).threshold == old(self).threshold,
            final(self).count_of(view) == count_step(
                old(self).count_of(view),
                sender,
                old(self).threshold as int,
            ).0,
            r.is_some() == count_step(
                old(self).count_of(view),
                sender,
                old(self).threshold as int,
            ).1,
            r matches Some(ms) ==> ms@ == old(self).messages_of(view).push(message),
            final(self).messages_of(view) == if count_step(
                old(self).count_of(view),
                sender,
                old(self).threshold as int,
            ).1 {
                Seq::empty()
            } else if !old(self).count_of(view).done && !old(self).count_of(
                view,
            ).senders.contains(sender) {
                old(self).messages_of(view).push(message)
            } else {
                old(self).messages_of(view)
            },
            forall|v: types::View|
                v != view ==> #[trigger] final(self).count_of(v) == old(self).count_of(v),
            forall|v: types::View|
                v != view ==> #[trigger] final(self).messages_of(v) == old(self).messages_of(v),
    {
        let t = self.threshold;
        self.tally_by(view, sender, message, t)
    }
}

#[derive(Clone, Debug)]
pub struct CarnotTallySettings {
    pub threshold: usize,
    /// The nodes whose votes count.
    pub participating_nodes: Vec<NodeId>,
}

#[derive(Debug)]
pub enum CarnotTallyError {
    InvalidVote(String),
    InsufficientVotes,
    StreamEnded,
}

/// A vote message counts for `block` when it names the block and its view and
/// comes from a participating node.
pub open spec fn counts_for(block: Block, participants: Seq<NodeId>, m: VoteMsg) -> bool {
    m.vote.view == block.view && m.vote.block == block.id && participants.contains(m.voter)
}

/// The distinct voters among the votes of `votes` that count for `block`.
pub open spec fn valid_voters(block: Block, participants: Seq<NodeId>, votes: Seq<VoteMsg>) -> Seq<
    NodeId,
>
    decreases votes.len(),
{
    if votes.len() == 0 {
        Seq::empty()
    } else {
        let prev = valid_voters(block, participants, votes.drop_last());
        let m = votes.last();
        if counts_for(block, participants, m) && !prev.contains(m.voter) {
            prev.push(m.voter)
        } else {
            prev
        }
    }
}

pub proof fn lemma_valid_voters_grow(
    block: Block,
    participants: Seq<NodeId>,
    votes: Seq<VoteMsg>,
    k: int,
)
    requires
        0 <= k <= votes.len(),
    ensures
        valid_voters(block, participants, votes.subrange(0, k)).len() <= valid_voters(
            block,
            participants,
            votes,
        ).len(),
    decreases votes.len() - k,
{
    if k < votes.len() {
        let next = votes.subrange(0, k + 1);
        assert(next.drop_last() =~= votes.subrange(0, k));
        assert(votes.subrange(0, k + 1).subrange(0, k + 1) =~= next);
        lemma_valid_voters_grow(block, participants, votes, k + 1);
    } else {
        assert(votes.subrange(0, k) =~= votes);
    }
}

/// Certifies a block once enough participating nodes voted for it.
#[derive(Clone, Debug)]
pub struct CarnotTally {
    pub settings: CarnotTallySettings,
}

impl CarnotTally {
    pub fn new(settings: CarnotTallySettings) -> (r: CarnotTally)
        ensures
            r.settings.threshold == settings.threshold,
            r.settings.participating_nodes@ == settings.participating_nodes@,
    {
        CarnotTally { settings }
    }

    /// Reads `votes` in order until the distinct participating voters for `block`
    /// reach the threshold, and certifies the block. A threshold of zero (a leaf
    /// committee) certifies at once. Running out of votes first is an error.
    pub fn tally(&self, block: Block, votes: &Vec<VoteMsg>) -> (r: Result<
        (Qc, Vec<Vote>),
        CarnotTallyError,
    >)
        ensures
            r.is_ok() <==> (self.settings.threshold == 0 || valid_voters(
                block,
                self.settings.participating_nodes@,
                votes@,
            ).len() >= self.settings.threshold),
            r matches Ok((qc, outcome)) ==> {
                &&& qc == Qc::Standard(StandardQc { view: block.view, id: block.id })
                &&& outcome@ == (if self.settings.threshold == 0 {
                    Seq::<Vote>::empty()
                } else {
                    seq![Vote { view: block.view, block: block.id }]
                })
            },
            r matches Err(e) ==> e is StreamEnded,
    {
        if self.settings.threshold == 0 {
            return Ok((Qc::Standard(StandardQc { view: block.view, id: block.id }), Vec::new()));
        }
        let ghost parts = self.settings.participating_nodes@;
        let mut seen: Vec<NodeId> = Vec::new();
        let mut i: usize = 0;
        while i < votes.len()
            invariant
                0 <= i <= votes@.len(),
                parts == self.settings.participating_nodes@,
                self.settings.threshold > 0,
                seen@ == valid_voters(block, parts, votes@.subrange(0, i as int)),
                seen@.len() < self.settings.threshold,
            decreases votes@.len() - i,
        {
            let m = votes[i];
            let ghost prefix = votes@.subrange(0, i + 1);
            assert(prefix.drop_last() =~= votes@.subrange(0, i as int));
            assert(prefix.last() == m);
            if m.vote.view == block.view && m.vote.block == block.id && contains_node(
                &self.settings.participating_nodes,
                m.voter,
            ) && !contains_node(&seen, m.voter) {
                seen.push(m.voter);
            }
            i += 1;
            if seen.len() >= self.settings.threshold {
                proof {
                    lemma_valid_voters_grow(block, parts, votes@, i as int);
                }
                let mut outcome: Vec<Vote> = Vec::new();
                outcome.push(Vote { view: block.view, block: block.id });
                assert(outcome@ =~= seq![Vote { view: block.view, block: block.id }]);
                return Ok((Qc::Standard(StandardQc { view: block.view, id: block.id }), outcome));
            }
        }
        assert(votes@.subrange(0, i as int) =~= votes@);
        Err(CarnotTallyError::StreamEnded)
    }
}

/// A timeout message counts at the root for `view` when it is of that view and
/// comes from a participating node.
pub open spec fn counts_timeout(view: types::View, participants: Seq<NodeId>, m: TimeoutMsg) -> bool {
    m.vote.view == view && participants.contains(m.voter)
}

/// The distinct senders of the timeouts of `msgs` that count, and those timeouts.
pub open spec fn timeout_count(view: types::View, participants: Seq<NodeId>, msgs: Seq<TimeoutMsg>) -> (
    Seq<NodeId>,
    Seq<Timeout>,
)
    decreases msgs.len(),
{
    if msgs.len() == 0 {
        (Seq::empty(), Seq::empty())
    } else {
        let prev = timeout_count(view, participants, msgs.drop_last());
        let m = msgs.last();
        if counts_timeout(view, participants, m) && !prev.0.contains(m.voter) {
            (prev.0.push(m.voter), prev.1.push(m.vote))
        } else {
            prev
        }
    }
}

/// A new-view message counts for the timeout QC `t` when it is of the view after
/// `t`, answers `t`'s view, and comes from a participating node.
pub open spec fn counts_new_view(t: TimeoutQc, participants: Seq<NodeId>, m: NewViewMsg) -> bool {
    m.vote.view == t.view + 1 && m.vote.timeout_qc.view == t.view && participants.contains(m.voter)
}

/// The distinct senders of the new-view messages of `msgs` that count, and those
/// new views.
pub open spec fn new_view_count(t: TimeoutQc, participants: Seq<NodeId>, msgs: Seq<NewViewMsg>) -> (
    Seq<NodeId>,
    Seq<NewView>,
)
    decreases msgs.len(),
{
    if msgs.len() == 0 {
        (Seq::empty(), Seq::empty())
    } else {
        let prev = new_view_count(t, participants, msgs.drop_last());
        let m = msgs.last();
        if counts_new_view(t, participants, m) && !prev.0.contains(m.voter) {
            (prev.0.push(m.voter), prev.1.push(m.vote))
        } else {
            prev
        }
    }
}

/// Gathers root timeouts of one view.
#[derive(Clone, Debug)]
pub struct TimeoutTally {
    pub settings: CarnotTallySettings,
}

impl TimeoutTally {
    pub fn new(settings: CarnotTallySettings) -> (r: TimeoutTally)
        ensures
            r.settings.threshold == settings.threshold,
            r.settings.participating_nodes@ == settings.participating_nodes@,
    {
        TimeoutTally { settings }
    }

    /// The timeouts of `view`, one per participating sender, once there are at
    /// least the threshold of them; a threshold of zero needs none.
    pub fn tally(&self, view: types::View, msgs: &Vec<TimeoutMsg>) -> (r: Result<
        Vec<Timeout>,
        CarnotTallyError,
    >)
        ensures
            r.is_ok() <==> (self.settings.threshold == 0 || timeout_count(
                view,
                self.settings.participating_nodes@,
                msgs@,
            ).0.len() >= self.settings.threshold),
            r matches Ok(ts) ==> ts@ == (if self.settings.threshold == 0 {
                Seq::<Timeout>::empty()
            } else {
                timeout_count(view, self.settings.participating_nodes@, msgs@).1
            }),
            r matches Err(e) ==> e is StreamEnded,
    {
        if self.settings.threshold == 0 {
            return Ok(Vec::new());
        }
        let ghost parts = self.settings.participating_nodes@;
        let mut seen: Vec<NodeId> = Vec::new();
        let mut out: Vec<Timeout> = Vec::new();
        let mut i: usize = 0;
        while i < msgs.len()
            invariant
                0 <= i <= msgs@.len(),
                parts == self.settings.participating_nodes@,
                (seen@, out@) == timeout_count(view, parts, msgs@.subrange(0, i as int)),
            decreases msgs@.len() - i,
        {
            let m = msgs[i];
            assert(msgs@.subrange(0, i + 1).drop_last() =~= msgs@.subrange(0, i as int));
            if m.vote.view == view && contains_node(&self.settings.participating_nodes, m.voter)
                && !contains_node(&seen, m.voter) {
                seen.push(m.voter);
                out.push(m.vote);
            }
            i += 1;
        }
        assert(msgs@.subrange(0, i as int) =~= msgs@);
        if seen.len() >= self.settings.threshold {
            Ok(out)
        } else {
            Err(CarnotTallyError::StreamEnded)
        }
    }
}

/// Gathers the new-view messages that answer a timeout QC.
#[derive(Clone, Debug)]
pub struct NewViewTally {
    pub settings: CarnotTallySettings,
}

impl NewViewTally {
    pub fn new(settings: CarnotTallySettings) -> (r: NewViewTally)
        ensures
            r.settings.threshold == settings.threshold,
            r.settings.participating_nodes@ == settings.participating_nodes@,
    {
        NewViewTally { settings }
    }

    /// The new views answering `timeout_qc`, one per participating sender, once
    /// there are at least the threshold of them; a threshold of zero (a leaf
    /// committee) needs none.
    pub fn tally(&self, timeout_qc: TimeoutQc, msgs: &Vec<NewViewMsg>) -> (r: Result<
        Vec<NewView>,
        CarnotTallyError,
    >)
        ensures
            r.is_ok() <==> (self.settings.threshold == 0 || new_view_count(
                timeout_qc,
                self.settings.participating_nodes@,
                msgs@,
            ).0.len() >= self.settings.threshold),
            r matches Ok(nvs) ==> nvs@ == (if self.settings.threshold == 0 {
                Seq::<NewView>::empty()
            } else {
                new_view_count(timeout_qc, self.settings.participating_nodes@, msgs@).1
            }),
            r matches Err(e) ==> e is StreamEnded,
    {
        if self.settings.threshold == 0 {
            return Ok(Vec::new());
        }
        let ghost parts = self.settings.participating_nodes@;
        let mut seen: Vec<NodeId> = Vec::new();
        let mut out: Vec<NewView> = Vec::new();
        let mut i: usize = 0;
        while i < msgs.len()
            invariant
                0 <= i <= msgs@.len(),
                parts == self.settings.participating_nodes@,
                (seen@, out@) == new_view_count(timeout_qc, parts, msgs@.subrange(0, i as int)),
            decreases msgs@.len() - i,
        {
            let m = msgs[i];
            assert(msgs@.subrange(0, i + 1).drop_last() =~= msgs@.subrange(0, i as int));
            let answers = m.vote.timeout_qc.view == timeout_qc.view && timeout_qc.view < i64::MAX
                && m.vote.view == timeout_qc.view + 1;
            if answers && contains_node(&self.settings.participating_nodes, m.voter)
                && !contains_node(&seen, m.voter) {
                seen.push(m.voter);
                out.push(m.vote);
            }
            i += 1;
        }
        assert(msgs@.subrange(0, i as int) =~= msgs@);
        if seen.len() >= self.settings.threshold {
            Ok(out)
        } else {
            Err(CarnotTallyError::StreamEnded)
        }
    }
}

#[derive(Clone, Copy, Debug)]
pub struct MockVote {
    pub view: i64,
}

impl MockVote {
    pub fn view(&self) -> (r: i64)
        ensures
            r == self.view,
    {
        self.view
    }
}

#[derive(Clone, Copy, Debug)]
pub struct MockQc {
    pub count_votes: usize,
}

impl MockQc {
    pub fn new(count_votes: usize) -> (r: MockQc)
        ensures
            r.count_votes == count_votes,
    {
        MockQc { count_votes }
    }

    pub fn votes(&self) -> (r: usize)
        ensures
            r == self.count_votes,
    {
        self.count_votes
    }
}

#[derive(Debug)]
pub struct Error(pub String);

#[derive(Clone, Copy, Debug)]
pub struct MockTallySettings {
    pub threshold: usize,
}

/// Counts votes of one view until there are more than the threshold.
#[derive(Debug)]
pub struct MockTally {
    pub threshold: usize,
}

/// Whether every vote of `votes` is for view `view`.
pub open spec fn all_in_view(votes: Seq<MockVote>, view: i64) -> bool {
    forall|i: int| 0 <= i < votes.len() ==> (#[trigger] votes[i]).view == view
}

impl MockTally {
    pub fn new(settings: MockTallySettings) -> (r: MockTally)
        ensures
            r.threshold == settings.threshold,
    {
        MockTally { threshold: settings.threshold }
    }

    /// Succeeds at the first vote past the threshold, with the number of votes read;
    /// a vote of another view before that, or too few votes, is an error.
    pub fn tally(&self, view: i64, votes: &Vec<MockVote>) -> (r: Result<(MockQc, ()), Error>)
        ensures
            r.is_ok() <==> (votes@.len() > self.threshold && all_in_view(
                votes@.subrange(0, self.threshold + 1),
                view,
            )),
            r matches Ok((qc, _)) ==> qc.count_votes == self.threshold + 1,
            r matches Err(e) ==> (e.0@ == "Invalid vote"@ || e.0@ == "Not enough votes"@),
    {
        let mut count_votes: usize = 0;
        while count_votes < votes.len()
            invariant
                0 <= count_votes <= votes@.len(),
                count_votes <= self.threshold,
                all_in_view(votes@.subrange(0, count_votes as int), view),
            decreases votes@.len() - count_votes,
        {
            if votes[count_votes].view() != view {
                assert(!(votes@.len() > self.threshold && all_in_view(
                    votes@.subrange(0, self.threshold + 1),
                    view,
                ))) by {
                    if votes@.len() > self.threshold {
                        assert(votes@.subrange(0, self.threshold + 1)[count_votes as int]
                            == votes@[count_votes as int]);
                    }
                }
                return Err(Error("Invalid vote".to_owned()));
            }
            assert(votes@.subrange(0, count_votes + 1) =~= votes@.subrange(
                0,
                count_votes as int,
            ).push(votes@[count_votes as int]));
            count_votes += 1;
            if count_votes > self.threshold {
                return Ok((MockQc { count_votes }, ()));
            }
        }
        Err(Error("Not enough votes".to_owned()))
    }
}

} // verus!
