//! The decisions of the event loop. The loop itself (timers, streams, the network)
//! runs outside; it hands each finished task's event to `process_event` and then
//! cancels, schedules and emits what the reaction says.
use vstd::prelude::*;
use crate::carnot::{
    can_approve, can_approve_new_view, max_new_view_qc, max_timeout_qc, on_approve, on_block,
    on_local_timeout, on_new_views, on_timeout_qc, Carnot,
};
use crate::overlay::{copy_committee, CommitteeOverlay};
use crate::tally::CarnotTallySettings;
use crate::types;
use crate::types::{
    max_qc, AggregateQc, Block, NewView, Outgoing, Payload, Qc, StandardQc, Timeout, TimeoutQc,
    Vote,
};

verus! {

/// The seconds a view lasts before its local timer fires, unless configured.
pub const DEFAULT_TIMEOUT_SECS: u64 = 30;

pub fn default_timeout() -> (r: u64)
    ensures
        r == DEFAULT_TIMEOUT_SECS,
{
    DEFAULT_TIMEOUT_SECS
}

/// What a node is configured with. Its key doubles as its id.
pub struct CarnotSettings {
    pub private_key: [u8; 32],
    pub overlay_settings: CommitteeOverlay,
    pub timeout_secs: u64,
}

impl CarnotSettings {
    pub fn new(private_key: [u8; 32], overlay_settings: CommitteeOverlay, timeout_secs: u64) -> (r:
        CarnotSettings)
        ensures
            r.private_key == private_key,
            r.overlay_settings == overlay_settings,
            r.timeout_secs == timeout_secs,
    {
        CarnotSettings { private_key, overlay_settings, timeout_secs }
    }
}

/// A view-bound piece of outside work. Gathering tasks read the network streams
/// of their view and tally with the settings the state machine gives.
#[derive(Clone, Copy, Debug, PartialEq, Eq)]
pub enum Task {
    /// Sleep for the configured timeout, then `Event::LocalTimeout`.
    LocalTimeout { view: types::View },
    /// The first valid proposal of `view`, then `Event::Proposal`.
    GatherBlock { view: types::View },
    /// A further proposal of `view` after one was handled.
    NextProposal { view: types::View },
    /// The first timeout QC of `view`, then `Event::TimeoutQc`.
    GatherTimeoutQc { view: types::View },
    /// Root timeouts of `view` up to the leader threshold, then `Event::RootTimeout`.
    GatherTimeouts { view: types::View },
    /// Votes of the child committees for `block`, then `Event::Approve`.
    GatherVotes { block: Block },
    /// Root votes for `block` at the next leader, then `Event::ProposeBlock`.
    LeaderGatherVotes { block: Block },
    /// New-view messages of the child committees, then `Event::NewView`.
    GatherNewViews { timeout_qc: TimeoutQc },
    /// Root new-view messages at the leader of the view after the timeout, then
    /// `Event::LeaderNewViews`.
    LeaderGatherNewViews { timeout_qc: TimeoutQc },
}

#[derive(Clone, Copy, Debug, PartialEq, Eq)]
pub struct Scheduled {
    pub view: types::View,
    pub task: Task,
}

/// What a finished task reports.
#[derive(Clone, Debug)]
pub enum Event {
    Proposal { block: Block },
    Approve { qc: Qc, block: Block, votes: Vec<Vote> },
    LocalTimeout { view: types::View },
    NewView { timeout_qc: TimeoutQc, new_views: Vec<NewView> },
    LeaderNewViews { timeout_qc: TimeoutQc, new_views: Vec<NewView> },
    TimeoutQc { timeout_qc: TimeoutQc },
    RootTimeout { timeouts: Vec<Timeout> },
    ProposeBlock { qc: Qc },
    Idle,
}

#[derive(Clone, Debug)]
pub enum Output {
    Send(Outgoing),
    BroadcastTimeoutQc { timeout_qc: TimeoutQc },
    /// Propose the block over `qc`; the transactions come from the mempool.
    BroadcastProposal { qc: Qc },
}

/// What the loop does after an event: emit, cancel the tasks of a view, schedule.
#[derive(Clone, Debug)]
pub struct Reaction {
    pub output: Option<Output>,
    pub cancel: Option<types::View>,
    pub schedule: Vec<Scheduled>,
}

pub open spec fn sched(view: int, task: Task) -> Scheduled {
    Scheduled { view: view as i64, task }
}

/// What a node schedules on entering its current view.
pub open spec fn view_change_tasks(c: &Carnot) -> Seq<Scheduled> {
    let v = c.current_view;
    seq![
        sched(v as int, Task::LocalTimeout { view: v }),
        sched(v + 1, Task::GatherBlock { view: (v + 1) as i64 }),
        sched(v as int, Task::GatherTimeoutQc { view: v }),
    ] + if c.overlay.in_root(c.id) {
        seq![sched(v as int, Task::GatherTimeouts { view: v })]
    } else {
        Seq::empty()
    }
}

/// What a proposal schedules: for a block new to the node and accepted, the
/// gathering of votes for it and, where the node leads the next view, the
/// leader's gathering; for a block already safe, the next proposal of its view.
pub open spec fn proposal_tasks(old: &Carnot, new: &Carnot, b: Block) -> Seq<Scheduled> {
    if old.highest_voted_view >= b.view {
        Seq::empty()
    } else {
        match on_block(old@, b) {
            Some(_) => if old@.safe_blocks.contains(b) {
                seq![sched(b.view as int, Task::NextProposal { view: b.view })]
            } else {
                seq![sched(b.view as int, Task::GatherVotes { block: b })] + if new.overlay.leader_spec(
                    (new.current_view + 1) as i64,
                ) == new.id {
                    seq![sched(b.view as int, Task::LeaderGatherVotes { block: b })]
                } else {
                    Seq::empty()
                }
            },
            None => Seq::empty(),
        }
    }
}

pub open spec fn event_tasks(old: &Carnot, new: &Carnot, e: Event) -> Seq<Scheduled> {
    match e {
        Event::Proposal { block } => proposal_tasks(old, new, block),
        Event::LocalTimeout { view } => if view == old.current_view {
            seq![sched(view as int, Task::LocalTimeout { view })]
        } else {
            Seq::empty()
        },
        Event::NewView { timeout_qc, .. } => if -1 <= timeout_qc.view < i64::MAX - 1
            && old.overlay.leader_spec((timeout_qc.view + 1) as i64) == old.id {
            seq![sched(timeout_qc.view + 1, Task::LeaderGatherNewViews { timeout_qc })]
        } else {
            Seq::empty()
        },
        Event::TimeoutQc { timeout_qc } => if new.current_view != old.current_view {
            seq![
                sched(timeout_qc.view + 1, Task::GatherNewViews { timeout_qc }),
                sched(
                    timeout_qc.view + 1,
                    Task::GatherBlock { view: (timeout_qc.view + 1) as i64 },
                ),
            ]
        } else {
            Seq::empty()
        },
        _ => Seq::empty(),
    }
}

/// The QC a leader proposes over after a timeout: the view that timed out, with
/// the highest QC among its own, the timeout QC's and the new-view messages'.
/// The block over it takes the view after the timeout.
pub open spec fn recovery_qc(c: &Carnot, t: TimeoutQc, nvs: Seq<NewView>) -> Qc {
    Qc::Aggregated(
        AggregateQc {
            view: t.view,
            high_qc: max_new_view_qc(max_qc(c.local_high_qc, t.high_qc), nvs),
        },
    )
}

pub open spec fn event_state(old: &Carnot, e: Event) -> crate::carnot::CarnotState {
    match e {
        Event::Proposal { block } => if old.highest_voted_view >= block.view {
            old@
        } else {
            match on_block(old@, block) {
                Some(n) => n,
                None => old@,
            }
        },
        Event::Approve { block, .. } => if block.view < old.current_view {
            old@
        } else {
            on_approve(old@, block)
        },
        Event::LocalTimeout { view } => if view == old.current_view {
            on_local_timeout(old@)
        } else {
            old@
        },
        Event::NewView { timeout_qc, new_views } => on_new_views(
            old@,
            timeout_qc,
            new_views@,
            old.overlay.super_majority_threshold_spec(old.id),
        ),
        Event::TimeoutQc { timeout_qc } => on_timeout_qc(old@, timeout_qc),
        _ => old@,
    }
}

/// The output an event calls for.
pub open spec fn event_output(old: &Carnot, new: &Carnot, e: Event, out: Option<Output>) -> bool {
    match e {
        Event::Approve { block, .. } => if block.view < old.current_view {
            out is None
        } else {
            match out {
            Some(Output::Send(o)) => can_approve(old@, block) && o.payload == Payload::Vote(
                Vote { view: block.view, block: block.id },
            ) && o.to@ == old.overlay.upward_spec(old.id, (old.current_view + 1) as i64),
            None => !can_approve(old@, block),
            _ => false,
        }
        },
        Event::LocalTimeout { view } => match out {
            Some(Output::Send(o)) => view == old.current_view && old.overlay.in_root(old.id)
                && o.to@ == old.overlay.committee(0) && o.payload == Payload::Timeout(
                Timeout {
                    view: old.current_view,
                    sender: old.id,
                    high_qc: old.local_high_qc,
                    timeout_qc: old.last_view_timeout_qc,
                },
            ),
            None => !(view == old.current_view && old.overlay.in_root(old.id)),
            _ => false,
        },
        Event::NewView { timeout_qc, new_views } => match out {
            Some(Output::Send(o)) => can_approve_new_view(
                old@,
                timeout_qc,
                new_views@,
                old.overlay.super_majority_threshold_spec(old.id),
            ) && o.to@ == old.overlay.upward_spec(old.id, (timeout_qc.view + 1) as i64)
                && o.payload == Payload::NewView(
                NewView {
                    view: (timeout_qc.view + 1) as i64,
                    sender: old.id,
                    timeout_qc,
                    high_qc: new.local_high_qc,
                },
            ),
            None => !can_approve_new_view(
                old@,
                timeout_qc,
                new_views@,
                old.overlay.super_majority_threshold_spec(old.id),
            ),
            _ => false,
        },
        Event::RootTimeout { timeouts } => match out {
            Some(Output::BroadcastTimeoutQc { timeout_qc }) => old.overlay.in_root(old.id)
                && timeouts@.len() > 0 && (forall|i: int|
                0 <= i < timeouts@.len() ==> (#[trigger] timeouts@[i]).view == old.current_view
                    && timeouts@[i].high_qc.view <= old.current_view) && timeout_qc == (
            TimeoutQc {
                view: old.current_view,
                high_qc: max_timeout_qc(old.local_high_qc, timeouts@),
                sender: old.id,
            }),
            None => !(old.overlay.in_root(old.id) && timeouts@.len() > 0 && forall|i: int|
                0 <= i < timeouts@.len() ==> (#[trigger] timeouts@[i]).view == old.current_view
                    && timeouts@[i].high_qc.view <= old.current_view),
            _ => false,
        },
        Event::ProposeBlock { qc } => if qc.view_spec() + 1 < old.current_view {
            out is None
        } else {
            out == Some(Output::BroadcastProposal { qc })
        },
        Event::LeaderNewViews { timeout_qc, new_views } => if timeout_qc.view + 1
            >= old.current_view {
            out == Some(Output::BroadcastProposal { qc: recovery_qc(old, timeout_qc, new_views@) })
        } else {
            out is None
        },
        _ => out is None,
    }
}

/// The members of `cs`, committee after committee.
pub open spec fn flatten(cs: Seq<Vec<types::NodeId>>) -> Seq<types::NodeId>
    decreases cs.len(),
{
    if cs.len() == 0 {
        Seq::empty()
    } else {
        flatten(cs.drop_last()) + cs.last()@
    }
}

/// The members of the committees below the committee of `c`'s node.
pub open spec fn child_members(c: &Carnot) -> Seq<types::NodeId> {
    let k = c.overlay.index_of(c.id);
    if k < 0 {
        Seq::empty()
    } else {
        (if 2 * k + 1 < c.overlay.count() {
            c.overlay.committee(2 * k + 1)
        } else {
            Seq::empty()
        }) + (if 2 * k + 2 < c.overlay.count() {
            c.overlay.committee(2 * k + 2)
        } else {
            Seq::empty()
        })
    }
}

/// Tally settings for gathering from the child committees.
pub fn tally_settings(c: &Carnot) -> (r: CarnotTallySettings)
    requires
        c.wf(),
    ensures
        r.threshold as int == c.overlay.super_majority_threshold_spec(c.id),
        r.participating_nodes@ == child_members(c),
{
    let children = c.overlay.child_committees(c.id);
    let mut nodes: Vec<types::NodeId> = Vec::new();
    let mut i: usize = 0;
    while i < children.len()
        invariant
            0 <= i <= children@.len(),
            nodes@ == flatten(children@.subrange(0, i as int)),
        decreases children@.len() - i,
    {
        let mut j: usize = 0;
        while j < children[i].len()
            invariant
                0 <= i < children@.len(),
                0 <= j <= children@[i as int]@.len(),
                nodes@ == flatten(children@.subrange(0, i as int)) + children@[i as int]@.subrange(
                    0,
                    j as int,
                ),
            decreases children@[i as int]@.len() - j,
        {
            nodes.push(children[i][j]);
            j += 1;
            assert(children@[i as int]@.subrange(0, j as int) =~= children@[i as int]@.subrange(
                0,
                j - 1,
            ).push(children@[i as int]@[j - 1]));
            assert(nodes@ =~= flatten(children@.subrange(0, i as int)) + children@[
                i as int
            ]@.subrange(0, j as int));
        }
        assert(children@.subrange(0, i + 1).drop_last() =~= children@.subrange(0, i as int));
        assert(children@[i as int]@.subrange(0, j as int) =~= children@[i as int]@);
        i += 1;
    }
    assert(children@.subrange(0, i as int) =~= children@);
    proof {
        let cs = children@;
        if cs.len() == 0 {
            assert(child_members(c) =~= Seq::<types::NodeId>::empty());
        } else if cs.len() == 1 {
            assert(cs.drop_last() =~= Seq::<Vec<types::NodeId>>::empty());
            assert(flatten(cs.drop_last()) =~= Seq::<types::NodeId>::empty());
            assert(child_members(c) =~= cs[0]@);
            assert(flatten(cs) =~= cs[0]@);
        } else {
            assert(cs.drop_last().drop_last() =~= Seq::<Vec<types::NodeId>>::empty());
            assert(flatten(cs.drop_last().drop_last()) =~= Seq::<types::NodeId>::empty());
            assert(cs.drop_last().last() == cs[0]);
            assert(flatten(cs.drop_last()) =~= cs[0]@);
            assert(flatten(cs) =~= cs[0]@ + cs[1]@);
            assert(child_members(c) =~= cs[0]@ + cs[1]@);
        }
    }
    CarnotTallySettings { threshold: c.super_majority_threshold(), participating_nodes: nodes }
}

/// Tally settings for the next leader gathering from the root committee.
pub fn leader_tally_settings(c: &Carnot) -> (r: CarnotTallySettings)
    requires
        c.wf(),
    ensures
        r.threshold as int == c.overlay.leader_super_majority_threshold_spec(),
        r.participating_nodes@ == c.overlay.committee(0),
{
    CarnotTallySettings {
        threshold: c.leader_super_majority_threshold(),
        participating_nodes: copy_committee(&c.overlay.committees[0]),
    }
}

fn push_view_change(c: &Carnot, schedule: &mut Vec<Scheduled>)
    requires
        c.wf(),
    ensures
        final(schedule)@ == old(schedule)@ + view_change_tasks(c),
{
    let v = c.current_view;
    schedule.push(Scheduled { view: v, task: Task::LocalTimeout { view: v } });
    schedule.push(Scheduled { view: v + 1, task: Task::GatherBlock { view: v + 1 } });
    schedule.push(Scheduled { view: v, task: Task::GatherTimeoutQc { view: v } });
    if c.is_member_of_root_committee() {
        schedule.push(Scheduled { view: v, task: Task::GatherTimeouts { view: v } });
    }
    assert(final(schedule)@ =~= old(schedule)@ + view_change_tasks(c));
}

/// The tasks a node starts with: those of view 0, the gathering of votes for the
/// genesis block, and the leader's gathering where the node leads view 1.
pub fn bootstrap(c: &Carnot) -> (r: Vec<Scheduled>)
    requires
        c.wf(),
        c.current_view == 0,
    ensures
        r@ == view_change_tasks(c) + seq![
            sched(0, Task::GatherVotes { block: c@.safe_blocks[0] }),
        ] + if c.overlay.leader_spec(1) == c.id {
            seq![sched(1, Task::LeaderGatherVotes { block: c@.safe_blocks[0] })]
        } else {
            Seq::empty()
        },
{
    let mut r: Vec<Scheduled> = Vec::new();
    push_view_change(c, &mut r);
    let genesis = c.genesis_block();
    r.push(Scheduled { view: 0, task: Task::GatherVotes { block: genesis } });
    if c.is_next_leader() {
        r.push(Scheduled { view: 1, task: Task::LeaderGatherVotes { block: genesis } });
    }
    assert(r@ =~= view_change_tasks(c) + seq![
        sched(0, Task::GatherVotes { block: c@.safe_blocks[0] }),
    ] + if c.overlay.leader_spec(1) == c.id {
        seq![sched(1, Task::LeaderGatherVotes { block: c@.safe_blocks[0] })]
    } else {
        Seq::empty()
    });
    r
}

/// How a node reacts to an event before any view change: its new state, the
/// output, and the tasks the event itself calls for.
pub open spec fn reacts(old: &Carnot, new: &Carnot, event: Event, r: (Option<Output>, Vec<Scheduled>)) -> bool {
    &&& new.wf()
    &&& new.id == old.id
    &&& new.overlay == old.overlay
    &&& new@ == event_state(old, event)
    &&& event_output(old, new, event, r.0)
    &&& r.1@ == event_tasks(old, new, event)
}

fn react_proposal(c: &mut Carnot, event: &Event) -> (r: (Option<Output>, Vec<Scheduled>))
    requires
        old(c).wf(),
        event is Proposal,
    ensures
        reacts(old(c), final(c), *event, r),
{
    let Event::Proposal { block } = event else { return (None, Vec::new()) };
    let block = *block;
    let mut schedule: Vec<Scheduled> = Vec::new();
    if c.highest_voted_view < block.view {
        let known = c.contains_block(&block);
        match c.receive_block(block) {
            Ok(()) => {
                if known {
                    schedule.push(
                        Scheduled { view: block.view, task: Task::NextProposal { view: block.view } },
                    );
                } else {
                    schedule.push(Scheduled { view: block.view, task: Task::GatherVotes { block } });
                    if c.is_next_leader() {
                        schedule.push(
                            Scheduled { view: block.view, task: Task::LeaderGatherVotes { block } },
                        );
                    }
                }
            },
            Err(_) => {},
        }
    }
    assert(schedule@ =~= event_tasks(old(c), c, *event));
    (None, schedule)
}

fn react_timeout(c: &mut Carnot, event: &Event) -> (r: (Option<Output>, Vec<Scheduled>))
    requires
        old(c).wf(),
        event is LocalTimeout,
    ensures
        reacts(old(c), final(c), *event, r),
{
    let Event::LocalTimeout { view } = event else { return (None, Vec::new()) };
    let view = *view;
    let mut output: Option<Output> = None;
    let mut schedule: Vec<Scheduled> = Vec::new();
    if view == c.current_view {
        match c.local_timeout() {
            Some(o) => {
                output = Some(Output::Send(o));
            },
            None => {},
        }
        schedule.push(Scheduled { view, task: Task::LocalTimeout { view } });
    }
    assert(schedule@ =~= event_tasks(old(c), c, *event));
    (output, schedule)
}

fn react_new_view(c: &mut Carnot, event: &Event) -> (r: (Option<Output>, Vec<Scheduled>))
    requires
        old(c).wf(),
        event is NewView,
    ensures
        reacts(old(c), final(c), *event, r),
{
    let Event::NewView { timeout_qc, new_views } = event else { return (None, Vec::new()) };
    let timeout_qc = *timeout_qc;
    let mut output: Option<Output> = None;
    let mut schedule: Vec<Scheduled> = Vec::new();
    let leads = -1 <= timeout_qc.view && timeout_qc.view < i64::MAX - 1 && c.overlay.leader(
        timeout_qc.view + 1,
    ) == c.id;
    match c.approve_new_view(timeout_qc, new_views) {
        Some(o) => {
            output = Some(Output::Send(o));
        },
        None => {},
    }
    if leads {
        schedule.push(
            Scheduled { view: timeout_qc.view + 1, task: Task::LeaderGatherNewViews { timeout_qc } },
        );
    }
    assert(schedule@ =~= event_tasks(old(c), c, *event));
    (output, schedule)
}

fn react_timeout_qc(c: &mut Carnot, event: &Event) -> (r: (Option<Output>, Vec<Scheduled>))
    requires
        old(c).wf(),
        event is TimeoutQc,
    ensures
        reacts(old(c), final(c), *event, r),
{
    let Event::TimeoutQc { timeout_qc } = event else { return (None, Vec::new()) };
    let timeout_qc = *timeout_qc;
    let prev_view = c.current_view;
    let mut schedule: Vec<Scheduled> = Vec::new();
    c.receive_timeout_qc(timeout_qc);
    if c.current_view != prev_view {
        schedule.push(
            Scheduled { view: timeout_qc.view + 1, task: Task::GatherNewViews { timeout_qc } },
        );
        schedule.push(
            Scheduled {
                view: timeout_qc.view + 1,
                task: Task::GatherBlock { view: timeout_qc.view + 1 },
            },
        );
    }
    assert(schedule@ =~= event_tasks(old(c), c, *event));
    (None, schedule)
}

fn react_output(c: &mut Carnot, event: &Event) -> (r: (Option<Output>, Vec<Scheduled>))
    requires
        old(c).wf(),
        !(event is Proposal || event is LocalTimeout || event is NewView || event is TimeoutQc),
    ensures
        reacts(old(c), final(c), *event, r),
{
    let mut output: Option<Output> = None;
    match event {
        Event::Approve { block, .. } => {
            if block.view >= c.current_view {
                match c.approve_block(*block) {
                    Some(o) => {
                        output = Some(Output::Send(o));
                    },
                    None => {},
                }
            }
        },
        Event::LeaderNewViews { timeout_qc, new_views } => {
            if timeout_qc.view >= c.current_view - 1 {
                let high = higher_new_view_qc(
                    types::higher_qc(c.local_high_qc, timeout_qc.high_qc),
                    new_views,
                );
                output = Some(
                    Output::BroadcastProposal {
                        qc: Qc::Aggregated(AggregateQc { view: timeout_qc.view, high_qc: high }),
                    },
                );
            }
        },
        Event::RootTimeout { timeouts } => {
            match c.process_root_timeout(timeouts) {
                Some(t) => {
                    output = Some(Output::BroadcastTimeoutQc { timeout_qc: t });
                },
                None => {},
            }
        },
        Event::ProposeBlock { qc } => {
            let v = qc.view();
            if v >= c.current_view - 1 {
                output = Some(Output::BroadcastProposal { qc: *qc });
            }
        },
        _ => {},
    }
    let schedule: Vec<Scheduled> = Vec::new();
    assert(schedule@ =~= event_tasks(old(c), c, *event));
    (output, schedule)
}

/// Feeds one event to the state machine and says what the loop does next. On a
/// view change the tasks of the previous view are cancelled and those of the new
/// view scheduled.
pub fn process_event(c: &mut Carnot, event: Event) -> (r: Reaction)
    requires
        old(c).wf(),
    ensures
        final(c).wf(),
        final(c).id == old(c).id,
        final(c).overlay == old(c).overlay,
        final(c)@ == event_state(old(c), event),
        event_output(old(c), final(c), event, r.output),
        (event matches Event::LocalTimeout { view } && view == old(c).current_view)
            ==> final(c).highest_voted_view == old(c).current_view,
        r.cancel == if final(c).current_view != old(c).current_view {
            Some(old(c).current_view)
        } else {
            None
        },
        r.schedule@ == event_tasks(old(c), final(c), event) + if final(c).current_view != old(
            c,
        ).current_view {
            view_change_tasks(final(c))
        } else {
            Seq::empty()
        },
{
    let prev_view = c.current_view;
    let (output, mut schedule) = match event {
        Event::Proposal { .. } => react_proposal(c, &event),
        Event::LocalTimeout { .. } => react_timeout(c, &event),
        Event::NewView { .. } => react_new_view(c, &event),
        Event::TimeoutQc { .. } => react_timeout_qc(c, &event),
        _ => react_output(c, &event),
    };
    let cancel = if c.current_view != prev_view {
        push_view_change(c, &mut schedule);
        Some(prev_view)
    } else {
        assert(schedule@ =~= schedule@ + Seq::<Scheduled>::empty());
        None
    };
    Reaction { output, cancel, schedule }
}

/// The highest of `init` and the high QCs of `nvs`.
fn higher_new_view_qc(init: StandardQc, nvs: &Vec<NewView>) -> (r: StandardQc)
    ensures
        r == max_new_view_qc(init, nvs@),
{
    let mut high = init;
    let mut i: usize = 0;
    while i < nvs.len()
        invariant
            0 <= i <= nvs@.len(),
            high == max_new_view_qc(init, nvs@.subrange(0, i as int)),
        decreases nvs@.len() - i,
    {
        assert(nvs@.subrange(0, i + 1).drop_last() =~= nvs@.subrange(0, i as int));
        high = types::higher_qc(high, nvs[i].high_qc);
        i += 1;
    }
    assert(nvs@.subrange(0, i as int) =~= nvs@);
    high
}

/// The header of the block a leader proposes over `qc`; `id` is the hash of its
/// content. `None` where no view follows `qc`'s.
pub fn proposal_header(leader: types::NodeId, qc: Qc, id: types::BlockId) -> (r: Option<Block>)
    ensures
        r is Some <==> qc.view_spec() < i64::MAX,
        r matches Some(b) ==> b == (Block {
            id,
            view: (qc.view_spec() + 1) as i64,
            parent_qc: qc,
            leader_proof: types::LeaderProof::LeaderId { leader_id: leader },
        }),
{
    let v = qc.view();
    if v == i64::MAX {
        None
    } else {
        Some(
            Block {
                id,
                view: v + 1,
                parent_qc: qc,
                leader_proof: types::LeaderProof::LeaderId { leader_id: leader },
            },
        )
    }
}

} // verus!
