//! Properties of the state machine and the tallies over whole runs, proved from
//! the transition functions that the executable code is held to.
use vstd::prelude::*;
use vstd::set_lib::{lemma_len_subset, lemma_set_disjoint_lens};
use crate::block_tree::{
    ancestry, is_ancestor, lemma_ancestry_push, lemma_ancestry_suffix, lemma_ancestry_views,
};
use crate::carnot::{
    can_approve, can_approve_new_view, max_new_view_qc, max_timeout_qc, on_approve, on_block,
    lemma_push_keeps_parents, on_local_timeout, on_new_views, on_timeout_qc, state_wf,
    CarnotState,
};
use crate::messages::VoteMsg;
use crate::tally::{count_run, count_step, counts_for, distinct, valid_voters};
use crate::types::{max_qc, Block, NewView, NodeId, StandardQc, Timeout, TimeoutQc};

verus! {

/// An input of the state machine.
pub enum Input {
    Block(Block),
    Approve(Block),
    LocalTimeout,
    TimeoutQc(TimeoutQc),
    NewViews(TimeoutQc, Seq<NewView>),
}

/// The state after one input; `threshold` is the node's own super-majority
/// threshold, which new-view approvals are held to.
pub open spec fn step(s: CarnotState, e: Input, threshold: int) -> CarnotState {
    match e {
        Input::Block(b) => match on_block(s, b) {
            Some(n) => n,
            None => s,
        },
        Input::Approve(b) => on_approve(s, b),
        Input::LocalTimeout => on_local_timeout(s),
        Input::TimeoutQc(t) => on_timeout_qc(s, t),
        Input::NewViews(t, nvs) => on_new_views(s, t, nvs, threshold),
    }
}

/// The state after the inputs `es`, in order.
pub open spec fn run(s: CarnotState, es: Seq<Input>, threshold: int) -> CarnotState
    decreases es.len(),
{
    if es.len() == 0 {
        s
    } else {
        step(run(s, es.drop_last(), threshold), es.last(), threshold)
    }
}

/// Whether input `i` of `es` makes the node vote, and for which block.
pub open spec fn vote_at(s: CarnotState, es: Seq<Input>, threshold: int, i: int) -> Option<Block> {
    match es[i] {
        Input::Approve(b) => if can_approve(run(s, es.subrange(0, i), threshold), b) {
            Some(b)
        } else {
            None
        },
        _ => None,
    }
}

pub proof fn lemma_step_keeps_voted_view(s: CarnotState, e: Input, threshold: int)
    ensures
        s.highest_voted_view <= step(s, e, threshold).highest_voted_view,
{
}

/// The highest voted view never decreases along a run.
pub proof fn lemma_voted_view_monotone(
    s: CarnotState,
    es: Seq<Input>,
    threshold: int,
    i: int,
    j: int,
)
    requires
        0 <= i <= j <= es.len(),
    ensures
        run(s, es.subrange(0, i), threshold).highest_voted_view <= run(
            s,
            es.subrange(0, j),
            threshold,
        ).highest_voted_view,
    decreases j - i,
{
    if i < j {
        lemma_voted_view_monotone(s, es, threshold, i, j - 1);
        let pre = es.subrange(0, j);
        assert(pre.drop_last() =~= es.subrange(0, j - 1));
        lemma_step_keeps_voted_view(run(s, es.subrange(0, j - 1), threshold), pre.last(), threshold);
    }
}

/// Two votes cast along a run are for strictly increasing views; so a node that
/// follows the protocol never votes for two blocks of one view.
pub proof fn lemma_one_vote_per_view(s: CarnotState, es: Seq<Input>, threshold: int, i: int, j: int)
    requires
        0 <= i < j < es.len(),
        vote_at(s, es, threshold, i) is Some,
        vote_at(s, es, threshold, j) is Some,
    ensures
        vote_at(s, es, threshold, i)->Some_0.view < vote_at(s, es, threshold, j)->Some_0.view,
{
    let bi = vote_at(s, es, threshold, i)->Some_0;
    let pre = es.subrange(0, i + 1);
    assert(pre.drop_last() =~= es.subrange(0, i));
    assert(run(s, es.subrange(0, i + 1), threshold).highest_voted_view == bi.view);
    lemma_voted_view_monotone(s, es, threshold, i + 1, j);
}

/// A vote is only cast for a view above the highest voted view before it, which
/// then becomes the vote's view.
pub proof fn lemma_vote_above_voted_view(s: CarnotState, b: Block)
    requires
        can_approve(s, b),
    ensures
        b.view > s.highest_voted_view,
        on_approve(s, b).highest_voted_view == b.view,
{
}

/// Of two committed blocks, the one of the later view descends from the other
/// through parent QCs.
pub proof fn lemma_committed_descend(s: CarnotState, i: int, j: int)
    requires
        0 <= i < ancestry(s.safe_blocks, s.latest_committed).len(),
        0 <= j < ancestry(s.safe_blocks, s.latest_committed).len(),
        ancestry(s.safe_blocks, s.latest_committed)[i].view < ancestry(
            s.safe_blocks,
            s.latest_committed,
        )[j].view,
    ensures
        is_ancestor(
            s.safe_blocks,
            ancestry(s.safe_blocks, s.latest_committed)[i],
            ancestry(s.safe_blocks, s.latest_committed)[j],
        ),
{
    let c = ancestry(s.safe_blocks, s.latest_committed);
    if i < j {
        lemma_ancestry_views(s.safe_blocks, s.latest_committed, i, j);
    }
    assert(j < i);
    lemma_ancestry_suffix(s.safe_blocks, s.latest_committed, j);
    let tail = c.subrange(j, c.len() as int);
    assert(tail[i - j] == c[i]);
}

/// Applying the same input twice leaves the state where the first application
/// left it.
pub proof fn lemma_idempotent(s: CarnotState, e: Input, threshold: int)
    ensures
        step(step(s, e, threshold), e, threshold) == step(s, e, threshold),
{
    match e {
        Input::Block(b) => {
            match on_block(s, b) {
                Some(n) => {
                    if !s.safe_blocks.contains(b) {
                        assert(n.safe_blocks[s.safe_blocks.len() as int] == b);
                    }
                    assert(n.safe_blocks.contains(b));
                },
                None => {},
            }
        },
        Input::NewViews(t, nvs) => {
            if can_approve_new_view(s, t, nvs, threshold) {
                let init = max_qc(s.local_high_qc, t.high_qc);
                let r = max_new_view_qc(init, nvs);
                lemma_max_new_view_qc_bounds(init, nvs);
                assert(max_qc(r, t.high_qc) == r);
                lemma_max_new_view_qc_stable(r, nvs);
            }
        },
        Input::TimeoutQc(t) => {
            let n = on_timeout_qc(s, t);
            assert(max_qc(max_qc(s.local_high_qc, t.high_qc), t.high_qc) == max_qc(
                s.local_high_qc,
                t.high_qc,
            ));
        },
        _ => {},
    }
}

/// The highest of `init` and the new-view high QCs is at least each of them.
pub proof fn lemma_max_new_view_qc_bounds(init: StandardQc, nvs: Seq<NewView>)
    ensures
        max_new_view_qc(init, nvs).view >= init.view,
        forall|i: int|
            0 <= i < nvs.len() ==> max_new_view_qc(init, nvs).view >= (#[trigger] nvs[i]).high_qc.view,
    decreases nvs.len(),
{
    if nvs.len() > 0 {
        lemma_max_new_view_qc_bounds(init, nvs.drop_last());
        assert forall|i: int| 0 <= i < nvs.len() - 1 implies nvs.drop_last()[i] == nvs[i] by {}
    }
}

proof fn lemma_max_new_view_qc_stable(init: StandardQc, nvs: Seq<NewView>)
    requires
        forall|i: int| 0 <= i < nvs.len() ==> (#[trigger] nvs[i]).high_qc.view <= init.view,
    ensures
        max_new_view_qc(init, nvs) == init,
    decreases nvs.len(),
{
    if nvs.len() > 0 {
        assert forall|i: int| 0 <= i < nvs.len() - 1 implies (
        #[trigger] nvs.drop_last()[i]).high_qc.view <= init.view by {
            assert(nvs.drop_last()[i] == nvs[i]);
        }
        lemma_max_new_view_qc_stable(init, nvs.drop_last());
    }
}

/// The highest of `init` and the timeouts' high QCs: at least each of them, and
/// one of them.
pub proof fn lemma_max_timeout_qc(init: StandardQc, ts: Seq<Timeout>)
    ensures
        max_timeout_qc(init, ts).view >= init.view,
        forall|i: int| 0 <= i < ts.len() ==> max_timeout_qc(init, ts).view >= (#[trigger] ts[i]).high_qc.view,
        max_timeout_qc(init, ts) == init || exists|i: int|
            0 <= i < ts.len() && max_timeout_qc(init, ts) == (#[trigger] ts[i]).high_qc,
    decreases ts.len(),
{
    if ts.len() > 0 {
        lemma_max_timeout_qc(init, ts.drop_last());
        assert forall|i: int| 0 <= i < ts.len() - 1 implies ts.drop_last()[i] == ts[i] by {}
        if max_timeout_qc(init, ts) != init && max_timeout_qc(init, ts) != ts.last().high_qc {
            let prev = max_timeout_qc(init, ts.drop_last());
            let i = choose|i: int| 0 <= i < ts.len() - 1 && prev == (#[trigger] ts.drop_last()[i]).high_qc;
            assert(ts[i] == ts.drop_last()[i]);
        }
    }
}

/// A timeout QC built at the root carries the highest high QC among the node's
/// own and the timeouts': where one timeout holds the QC `q` and no other, nor
/// the node's own, is newer, the timeout QC's high QC is at `q`'s view.
pub proof fn lemma_root_timeout_high_qc(own: StandardQc, ts: Seq<Timeout>, i: int)
    requires
        0 <= i < ts.len(),
        own.view <= ts[i].high_qc.view,
        forall|j: int| 0 <= j < ts.len() ==> (#[trigger] ts[j]).high_qc.view <= ts[i].high_qc.view,
    ensures
        max_timeout_qc(own, ts).view == ts[i].high_qc.view,
{
    lemma_max_timeout_qc(own, ts);
}

proof fn lemma_count_run(senders: Seq<NodeId>, t: int)
    ensures
        count_run(senders, t).done <==> (t > 0 && distinct(senders).len() >= t),
        !count_run(senders, t).done ==> count_run(senders, t).senders == distinct(senders),
    decreases senders.len(),
{
    if senders.len() > 0 {
        lemma_count_run(senders.drop_last(), t);
    }
}

/// A tally of one view answers `Some` at the message that first brings the number
/// of distinct senders to the threshold, and `None` at every other.
pub proof fn lemma_tally_fires_once(senders: Seq<NodeId>, t: int, i: int)
    requires
        0 <= i < senders.len(),
    ensures
        count_step(count_run(senders.subrange(0, i), t), senders[i], t).1 <==> (distinct(
            senders.subrange(0, i + 1),
        ).len() == t && distinct(senders.subrange(0, i)).len() < t),
{
    let pre = senders.subrange(0, i);
    let next = senders.subrange(0, i + 1);
    assert(next.drop_last() =~= pre);
    assert(next.last() == senders[i]);
    lemma_count_run(pre, t);
}

/// In a committee of `3f + 1` nodes of which at most `f` deviate from the
/// protocol, two quorums of `2f + 1` share a node that follows it. Since such a
/// node votes once per view, two blocks of one view cannot both be certified.
pub proof fn lemma_quorums_share_honest_node(
    committee: Set<NodeId>,
    byzantine: Set<NodeId>,
    qa: Set<NodeId>,
    qb: Set<NodeId>,
    f: nat,
)
    requires
        committee.finite(),
        committee.len() == 3 * f + 1,
        byzantine.subset_of(committee),
        byzantine.len() <= f,
        qa.subset_of(committee),
        qb.subset_of(committee),
        qa.len() >= 2 * f + 1,
        qb.len() >= 2 * f + 1,
    ensures
        exists|n: NodeId| qa.contains(n) && qb.contains(n) && !byzantine.contains(n),
{
    lemma_len_subset(qa, committee);
    lemma_len_subset(qb, committee);
    lemma_len_subset(byzantine, committee);
    let both = qa.intersect(qb);
    let only_a = qa.difference(qb);
    lemma_len_subset(both, committee);
    lemma_len_subset(only_a, committee);
    assert(only_a + both =~= qa);
    lemma_set_disjoint_lens(only_a, both);
    assert(qb + only_a =~= qa.union(qb));
    lemma_set_disjoint_lens(qb, only_a);
    lemma_len_subset(qa.union(qb), committee);
    let honest = both.difference(byzantine);
    let bad = both.intersect(byzantine);
    lemma_len_subset(honest, committee);
    lemma_len_subset(bad, byzantine);
    assert(honest + bad =~= both);
    lemma_set_disjoint_lens(honest, bad);
    assert(honest.len() >= 1);
    if !(exists|n: NodeId| qa.contains(n) && qb.contains(n) && !byzantine.contains(n)) {
        assert(honest =~= Set::<NodeId>::empty());
    }
}

/// `n` sent a vote that counts for `b` among `votes`.
pub open spec fn voted_for(b: Block, participants: Seq<NodeId>, votes: Seq<VoteMsg>, n: NodeId) -> bool {
    exists|i: int|
        0 <= i < votes.len() && counts_for(b, participants, #[trigger] votes[i]) && votes[i].voter
            == n
}

proof fn lemma_valid_voters_shape(b: Block, participants: Seq<NodeId>, votes: Seq<VoteMsg>)
    ensures
        valid_voters(b, participants, votes).no_duplicates(),
        forall|k: int|
            0 <= k < valid_voters(b, participants, votes).len() ==> participants.contains(
                #[trigger] valid_voters(b, participants, votes)[k],
            ) && voted_for(b, participants, votes, valid_voters(b, participants, votes)[k]),
    decreases votes.len(),
{
    if votes.len() > 0 {
        let prev_votes = votes.drop_last();
        lemma_valid_voters_shape(b, participants, prev_votes);
        let prev = valid_voters(b, participants, prev_votes);
        let cur = valid_voters(b, participants, votes);
        assert forall|k: int| 0 <= k < cur.len() implies participants.contains(#[trigger] cur[k])
            && voted_for(b, participants, votes, cur[k]) by {
            if k < prev.len() {
                assert(cur[k] == prev[k]);
                let i = choose|i: int|
                    0 <= i < prev_votes.len() && counts_for(b, participants, #[trigger] prev_votes[i])
                        && prev_votes[i].voter == prev[k];
                assert(votes[i] == prev_votes[i]);
            } else {
                assert(votes[votes.len() - 1] == votes.last());
            }
        }
    }
}

/// Safety under equivocation: take two blocks of one view, certified by tallies
/// over one committee of `3f + 1` nodes, at most `f` of them deviating, with a
/// threshold of at least `2f + 1`. If every other node votes for at most one of
/// the two, the two tallies cannot both reach the threshold, so at most one of
/// the blocks gets a standard QC.
pub proof fn lemma_equivocation_certifies_one(
    b1: Block,
    b2: Block,
    participants: Seq<NodeId>,
    votes1: Seq<VoteMsg>,
    votes2: Seq<VoteMsg>,
    byzantine: Set<NodeId>,
    f: nat,
    threshold: int,
)
    requires
        b1.view == b2.view,
        b1.id != b2.id,
        participants.no_duplicates(),
        participants.len() == 3 * f + 1,
        byzantine.subset_of(participants.to_set()),
        byzantine.len() <= f,
        threshold >= 2 * f + 1,
        forall|n: NodeId|
            participants.contains(n) && !byzantine.contains(n) ==> !(voted_for(
                b1,
                participants,
                votes1,
                n,
            ) && voted_for(b2, participants, votes2, n)),
    ensures
        !(valid_voters(b1, participants, votes1).len() >= threshold && valid_voters(
            b2,
            participants,
            votes2,
        ).len() >= threshold),
{
    if valid_voters(b1, participants, votes1).len() >= threshold && valid_voters(
        b2,
        participants,
        votes2,
    ).len() >= threshold {
        let v1 = valid_voters(b1, participants, votes1);
        let v2 = valid_voters(b2, participants, votes2);
        lemma_valid_voters_shape(b1, participants, votes1);
        lemma_valid_voters_shape(b2, participants, votes2);
        v1.unique_seq_to_set();
        v2.unique_seq_to_set();
        participants.unique_seq_to_set();
        let committee = participants.to_set();
        assert(v1.to_set().subset_of(committee)) by {
            assert forall|n: NodeId| v1.to_set().contains(n) implies committee.contains(n) by {
                let k = choose|k: int| 0 <= k < v1.len() && v1[k] == n;
                assert(participants.contains(v1[k]));
            }
        }
        assert(v2.to_set().subset_of(committee)) by {
            assert forall|n: NodeId| v2.to_set().contains(n) implies committee.contains(n) by {
                let k = choose|k: int| 0 <= k < v2.len() && v2[k] == n;
                assert(participants.contains(v2[k]));
            }
        }
        lemma_quorums_share_honest_node(committee, byzantine, v1.to_set(), v2.to_set(), f);
        let n = choose|n: NodeId|
            v1.to_set().contains(n) && v2.to_set().contains(n) && !byzantine.contains(n);
        let k1 = choose|k: int| 0 <= k < v1.len() && v1[k] == n;
        let k2 = choose|k: int| 0 <= k < v2.len() && v2[k] == n;
        assert(participants.contains(v1[k1]) && voted_for(b1, participants, votes1, v1[k1]));
        assert(voted_for(b2, participants, votes2, v2[k2]));
    }
}

/// Commits are kept: after a block arrives, the committed blocks of before are the
/// oldest part of the committed blocks of after.
pub proof fn lemma_commit_keeps_committed(s: CarnotState, b: Block)
    requires
        state_wf(s),
        on_block(s, b) is Some,
    ensures
        ({
            let n = on_block(s, b)->Some_0;
            let before = ancestry(s.safe_blocks, s.latest_committed);
            let after = ancestry(n.safe_blocks, n.latest_committed);
            before.len() <= after.len() && after.subrange(
                after.len() - before.len(),
                after.len() as int,
            ) == before
        }),
{
    let n = on_block(s, b)->Some_0;
    let before = ancestry(s.safe_blocks, s.latest_committed);
    if s.safe_blocks.contains(b) {
        assert(before.subrange(0, before.len() as int) =~= before);
    } else {
        lemma_push_keeps_parents(s, b);
        lemma_ancestry_push(s.safe_blocks, b, s.latest_committed);
        let after = ancestry(n.safe_blocks, n.latest_committed);
        if n.latest_committed == s.latest_committed {
            assert(after.subrange(0, after.len() as int) =~= after);
        } else {
            assert(is_ancestor(n.safe_blocks, s.latest_committed, n.latest_committed));
            let j = choose|j: int| 0 <= j < after.len() && after[j] == s.latest_committed;
            lemma_ancestry_suffix(n.safe_blocks, n.latest_committed, j);
        }
    }
}

} // verus!
