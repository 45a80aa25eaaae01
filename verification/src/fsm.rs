use vstd::prelude::*;

use crate::table::{
    action_records, guards_tried, guards_winning, lemma_guards_tried_only_guard_records,
    opt_actions, Record, Transition, TransitionTarget, TransitionView,
};
use crate::tree::{
    as_ints, boundary, chain_between, default_leaf, entry_chain, is_ancestor,
    lemma_ancestor_transitive, lemma_entry_chain_outermost_first,
    lemma_exit_chain_innermost_first, lemma_lca_common_ancestor, tree_wf, StateTree,
};

verus! {

#[derive(Clone, Copy, Debug, PartialEq, Eq, Structural)]
pub enum FsmState {
    InitialPseudoState,
    State1,
    State2,
    State3,
    State4,
    State5,
    FinalPseudoState,
}

#[allow(non_camel_case_types)]
#[derive(Clone, Copy, Debug, PartialEq, Eq, Structural)]
pub enum FsmEvent {
    eventA,
    eventB,
    eventC,
    eventD,
    eventFoo,
    init,
}

impl Default for FsmEvent {
    /// The pseudo-event passed to callbacks during the initial entry sequence.
    fn default() -> (r: Self)
        ensures
            r == FsmEvent::eventA,
    {
        FsmEvent::eventA
    }
}

#[allow(non_camel_case_types)]
#[derive(Clone, Copy, Debug, PartialEq, Eq, Structural)]
pub enum FsmGuardId {
    guardA,
    guardB,
}

#[allow(non_camel_case_types)]
#[derive(Clone, Copy, Debug, PartialEq, Eq, Structural)]
pub enum FsmActionId {
    actionA,
    actionB,
}

pub type FsmRecord = Record<FsmState, FsmEvent, FsmGuardId, FsmActionId>;

pub type FsmTransition = Transition<FsmState, FsmGuardId, FsmActionId>;

pub type FsmTransitionView = TransitionView<FsmState, FsmGuardId, FsmActionId>;

/// The host-side capability surface the machine notifies. The abstract `log`
/// names everything the host has observed so far, newest last; each callback
/// appends exactly its own record, so a machine contract over `log` pins the
/// exact sequence of notifications a dispatch makes.
pub trait FsmHooks: Sized {
    spec fn log(&self) -> Seq<FsmRecord>;

    fn on_entry(&mut self, state: FsmState)
        ensures
            final(self).log() == old(self).log().push(Record::Entry(state)),
    ;

    fn on_exit(&mut self, state: FsmState)
        ensures
            final(self).log() == old(self).log().push(Record::Exit(state)),
    ;

    fn guard(&mut self, state: FsmState, event: FsmEvent, guard: FsmGuardId) -> (b: bool)
        ensures
            final(self).log() == old(self).log().push(Record::GuardCall(state, event, guard, b)),
    ;

    fn action(&mut self, state: FsmState, event: FsmEvent, action: FsmActionId)
        ensures
            final(self).log() == old(self).log().push(Record::Action(state, event, action)),
    ;
}

/// Observation point invoked once per accepted event; it does nothing.
pub fn on_event(_state: FsmState, _event: FsmEvent) {
}

/// Observation point invoked once per selected transition; it does nothing.
pub fn on_transition(_from: FsmState, _to: FsmState, _event: FsmEvent) {
}

/// Node numbering of the state tree: the synthetic root is 0 and every real
/// state hangs directly off it — the flat machine is the depth-one case of
/// the hierarchical engine.
pub open spec fn state_index(st: FsmState) -> int {
    match st {
        FsmState::InitialPseudoState => 1,
        FsmState::State1 => 2,
        FsmState::State2 => 3,
        FsmState::State3 => 4,
        FsmState::State4 => 5,
        FsmState::State5 => 6,
        FsmState::FinalPseudoState => 7,
    }
}

pub open spec fn state_at(i: int) -> FsmState {
    if i == 2 {
        FsmState::State1
    } else if i == 3 {
        FsmState::State2
    } else if i == 4 {
        FsmState::State3
    } else if i == 5 {
        FsmState::State4
    } else if i == 6 {
        FsmState::State5
    } else if i == 7 {
        FsmState::FinalPseudoState
    } else {
        FsmState::InitialPseudoState
    }
}

pub fn index_of(st: FsmState) -> (i: usize)
    ensures
        i as int == state_index(st),
{
    match st {
        FsmState::InitialPseudoState => 1,
        FsmState::State1 => 2,
        FsmState::State2 => 3,
        FsmState::State3 => 4,
        FsmState::State4 => 5,
        FsmState::State5 => 6,
        FsmState::FinalPseudoState => 7,
    }
}

pub fn state_of(i: usize) -> (r: FsmState)
    ensures
        r == state_at(i as int),
{
    if i == 2 {
        FsmState::State1
    } else if i == 3 {
        FsmState::State2
    } else if i == 4 {
        FsmState::State3
    } else if i == 5 {
        FsmState::State4
    } else if i == 6 {
        FsmState::State5
    } else if i == 7 {
        FsmState::FinalPseudoState
    } else {
        FsmState::InitialPseudoState
    }
}

/// Parent of each node: everything hangs directly off the root.
pub open spec fn fsm_parents() -> Seq<usize> {
    seq![0usize, 0, 0, 0, 0, 0, 0, 0]
}

/// Default child of each node: the root defaults into State1; every state is
/// a leaf and holds itself.
pub open spec fn fsm_children() -> Seq<usize> {
    seq![2usize, 1, 2, 3, 4, 5, 6, 7]
}

pub proof fn lemma_fsm_tree_wf()
    ensures
        tree_wf(fsm_parents(), fsm_children()),
{
    let p = fsm_parents();
    let c = fsm_children();
    assert(p.len() == 8);
    assert(c.len() == 8);
    assert forall|i: int| 1 <= i < 8 implies (#[trigger] p[i]) < i by {
        assert(p[i] == 0);
    }
    assert forall|i: int| 0 <= i < 8 implies ((#[trigger] c[i]) == i || (i < c[i] && c[i] < 8
        && p[c[i] as int] == i)) by {
        if i == 0 {
            assert(c[0] == 2 && p[2] == 0);
        } else if i == 1 {
            assert(c[1] == 1);
        } else if i == 2 {
            assert(c[2] == 2);
        } else if i == 3 {
            assert(c[3] == 3);
        } else if i == 4 {
            assert(c[4] == 4);
        } else if i == 5 {
            assert(c[5] == 5);
        } else if i == 6 {
            assert(c[6] == 6);
        } else {
            assert(c[7] == 7);
        }
    }
}

/// Shorthand for one candidate transition with at most one action.
pub open spec fn cand(
    source: FsmState,
    guard: Option<FsmGuardId>,
    action: Option<FsmActionId>,
    target: TransitionTarget<FsmState>,
) -> FsmTransitionView {
    TransitionView { source, guard, actions: opt_actions(action), target }
}

/// The transition table: the ordered candidates for each (current state,
/// event) pair. A pair with no entry means the event is discarded.
#[verifier::opaque]
pub open spec fn fsm_table(state: FsmState, event: FsmEvent) -> Seq<FsmTransitionView> {
    match state {
        FsmState::State1 => match event {
            FsmEvent::eventA => seq![
                cand(FsmState::State1, None, None, TransitionTarget::State(FsmState::State2)),
            ],
            FsmEvent::init => seq![
                cand(FsmState::State1, None, None, TransitionTarget::SelfTransition),
            ],
            FsmEvent::eventFoo => seq![
                cand(FsmState::State1, None, None, TransitionTarget::SelfTransition),
            ],
            _ => Seq::empty(),
        },
        FsmState::State2 => match event {
            FsmEvent::eventB => seq![
                cand(
                    FsmState::State2,
                    Some(FsmGuardId::guardA),
                    None,
                    TransitionTarget::State(FsmState::State3),
                ),
            ],
            _ => Seq::empty(),
        },
        FsmState::State3 => match event {
            FsmEvent::eventC => seq![
                cand(
                    FsmState::State3,
                    None,
                    Some(FsmActionId::actionA),
                    TransitionTarget::State(FsmState::State4),
                ),
            ],
            _ => Seq::empty(),
        },
        FsmState::State4 => match event {
            FsmEvent::eventD => seq![
                cand(
                    FsmState::State4,
                    Some(FsmGuardId::guardB),
                    Some(FsmActionId::actionB),
                    TransitionTarget::State(FsmState::State5),
                ),
            ],
            _ => Seq::empty(),
        },
        FsmState::State5 => match event {
            FsmEvent::init => seq![
                cand(FsmState::State5, None, None, TransitionTarget::SelfTransition),
            ],
            _ => Seq::empty(),
        },
        FsmState::InitialPseudoState => Seq::empty(),
        FsmState::FinalPseudoState => Seq::empty(),
    }
}

/// The candidates for one (current state, event) pair, in table order.
pub fn fsm_candidates(state: FsmState, event: FsmEvent) -> (v: Vec<FsmTransition>)
    ensures
        v@.len() == fsm_table(state, event).len(),
        forall|i: int| 0 <= i < v@.len() ==> (#[trigger] v@[i])@ == fsm_table(state, event)[i],
{
    proof {
        reveal(fsm_table);
    }
    let mut v: Vec<FsmTransition> = Vec::new();
    match state {
        FsmState::State1 => match event {
            FsmEvent::eventA => {
                v.push(
                    Transition::make(
                        FsmState::State1,
                        None,
                        None,
                        TransitionTarget::State(FsmState::State2),
                    ),
                );
            },
            FsmEvent::init => {
                v.push(
                    Transition::make(
                        FsmState::State1,
                        None,
                        None,
                        TransitionTarget::SelfTransition,
                    ),
                );
            },
            FsmEvent::eventFoo => {
                v.push(
                    Transition::make(
                        FsmState::State1,
                        None,
                        None,
                        TransitionTarget::SelfTransition,
                    ),
                );
            },
            _ => {},
        },
        FsmState::State2 => match event {
            FsmEvent::eventB => {
                v.push(
                    Transition::make(
                        FsmState::State2,
                        Some(FsmGuardId::guardA),
                        None,
                        TransitionTarget::State(FsmState::State3),
                    ),
                );
            },
            _ => {},
        },
        FsmState::State3 => match event {
            FsmEvent::eventC => {
                v.push(
                    Transition::make(
                        FsmState::State3,
                        None,
                        Some(FsmActionId::actionA),
                        TransitionTarget::State(FsmState::State4),
                    ),
                );
            },
            _ => {},
        },
        FsmState::State4 => match event {
            FsmEvent::eventD => {
                v.push(
                    Transition::make(
                        FsmState::State4,
                        Some(FsmGuardId::guardB),
                        Some(FsmActionId::actionB),
                        TransitionTarget::State(FsmState::State5),
                    ),
                );
            },
            _ => {},
        },
        FsmState::State5 => match event {
            FsmEvent::init => {
                v.push(
                    Transition::make(
                        FsmState::State5,
                        None,
                        None,
                        TransitionTarget::SelfTransition,
                    ),
                );
            },
            _ => {},
        },
        FsmState::InitialPseudoState => {},
        FsmState::FinalPseudoState => {},
    }
    v
}

/// Exit notifications for a chain of node indices, in chain order.
pub open spec fn exits_of(chain: Seq<int>) -> Seq<FsmRecord> {
    chain.map_values(|i: int| Record::Exit(state_at(i)))
}

/// Entry notifications for a chain of node indices, in chain order.
pub open spec fn entries_of(chain: Seq<int>) -> Seq<FsmRecord> {
    chain.map_values(|i: int| Record::Entry(state_at(i)))
}

/// What a state-changing transition exits: the chain from the current state
/// up to, excluding, the boundary, innermost first.
pub open spec fn exit_trace(cur: int, stop: int) -> Seq<FsmRecord> {
    exits_of(chain_between(fsm_parents(), cur, stop))
}

/// What a state-changing transition enters: down from just below the boundary
/// to the target, then along default children to a leaf, outermost first.
pub open spec fn entry_trace(stop: int, tgt: int) -> Seq<FsmRecord> {
    entries_of(entry_chain(fsm_parents(), fsm_children(), stop, tgt))
}

/// Everything dispatch emits when it selects candidate `k` of `cands` while
/// in `cur`: the guard calls that rejected the earlier candidates, the
/// winning guard call if the candidate has one, then — for a state change —
/// the exit chain, the actions, and the entry chain; for a self-transition
/// only the actions.
pub open spec fn taken_trace(cur: FsmState, event: FsmEvent, cands: Seq<FsmTransitionView>, k: int) -> Seq<
    FsmRecord,
> {
    guards_winning(cur, event, cands, k) + (match cands[k].target {
        TransitionTarget::SelfTransition => action_records(cur, event, cands[k].actions),
        TransitionTarget::State(t) => {
            let b = boundary(fsm_parents(), state_index(cands[k].source), state_index(t));
            exit_trace(state_index(cur), b) + action_records(cur, event, cands[k].actions)
                + entry_trace(b, state_index(t))
        },
    })
}

/// The state dispatch lands in after taking candidate `c` in `cur`: unchanged
/// for a self-transition, otherwise the default leaf under the target.
pub open spec fn taken_state(cur: FsmState, c: FsmTransitionView) -> FsmState {
    match c.target {
        TransitionTarget::SelfTransition => cur,
        TransitionTarget::State(t) => state_at(default_leaf(fsm_children(), state_index(t))),
    }
}

/// The log a self-transition leaves behind is the taken trace: guard calls,
/// then the actions, grouped either way.
proof fn lemma_taken_log_self(
    base: Seq<FsmRecord>,
    pre: FsmState,
    event: FsmEvent,
    cs: Seq<FsmTransitionView>,
    ki: int,
)
    requires
        0 <= ki < cs.len(),
        cs[ki].target is SelfTransition,
    ensures
        base + guards_winning(pre, event, cs, ki) + action_records(pre, event, cs[ki].actions)
            == base + taken_trace(pre, event, cs, ki),
{
    assert(base + guards_winning(pre, event, cs, ki) + action_records(pre, event, cs[ki].actions)
        =~= base + taken_trace(pre, event, cs, ki));
}

/// The log a state-changing transition leaves behind is the taken trace:
/// guard calls, exits, actions and entries, grouped either way.
proof fn lemma_taken_log_change(
    base: Seq<FsmRecord>,
    pre: FsmState,
    event: FsmEvent,
    cs: Seq<FsmTransitionView>,
    ki: int,
    t: FsmState,
)
    requires
        0 <= ki < cs.len(),
        cs[ki].target == TransitionTarget::State(t),
    ensures
        ({
            let b = boundary(fsm_parents(), state_index(cs[ki].source), state_index(t));
            base + guards_winning(pre, event, cs, ki) + exit_trace(state_index(pre), b)
                + action_records(pre, event, cs[ki].actions) + entry_trace(b, state_index(t))
                == base + taken_trace(pre, event, cs, ki)
        }),
{
    let b = boundary(fsm_parents(), state_index(cs[ki].source), state_index(t));
    assert(base + guards_winning(pre, event, cs, ki) + exit_trace(state_index(pre), b)
        + action_records(pre, event, cs[ki].actions) + entry_trace(b, state_index(t)) =~= base
        + taken_trace(pre, event, cs, ki));
}

/// The actions fired once as part of the initial entry sequence: the flat
/// machine declares none.
pub open spec fn initial_actions() -> Seq<FsmActionId> {
    Seq::empty()
}

/// Everything `start` emits: the entries from the root's default child down
/// to the default leaf — here just State1.
pub open spec fn start_trace() -> Seq<FsmRecord> {
    action_records(state_at(fsm_children()[0] as int), FsmEvent::eventA, initial_actions())
        + entry_trace(0, 0)
}

/// The leaf the machine occupies right after `start`.
pub open spec fn initial_leaf() -> FsmState {
    state_at(default_leaf(fsm_children(), 0))
}

/// The default configuration resolves to State1.
pub proof fn lemma_initial_leaf()
    ensures
        initial_leaf() == FsmState::State1,
{
    assert(default_leaf(fsm_children(), 0) == 2) by {
        reveal_with_fuel(default_leaf, 3);
    }
}

/// Every state-changing candidate in the table lands on one of the ordinary
/// states State2 to State5 once its target is resolved: in the flat tree
/// every target is its own leaf.
pub proof fn lemma_table_targets_land_on_leaves(state: FsmState, event: FsmEvent)
    ensures
        forall|i: int|
            0 <= i < fsm_table(state, event).len() ==> ((#[trigger] fsm_table(
                state,
                event,
            )[i].target) matches TransitionTarget::State(t) ==> {
                let land = state_at(default_leaf(fsm_children(), state_index(t)));
                land == FsmState::State2 || land == FsmState::State3 || land == FsmState::State4
                    || land == FsmState::State5
            }),
{
    reveal(fsm_table);
    assert(default_leaf(fsm_children(), 3) == 3) by {
        reveal_with_fuel(default_leaf, 2);
    }
    assert(default_leaf(fsm_children(), 4) == 4) by {
        reveal_with_fuel(default_leaf, 2);
    }
    assert(default_leaf(fsm_children(), 5) == 5) by {
        reveal_with_fuel(default_leaf, 2);
    }
    assert(default_leaf(fsm_children(), 6) == 6) by {
        reveal_with_fuel(default_leaf, 2);
    }
}

/// One dispatch took candidate `k`: every candidate before it is guarded (its
/// guard was called and observed false), the log grew by exactly the taken
/// trace, and the machine moved to the candidate's destination, terminating
/// exactly when that destination is the final pseudostate.
pub open spec fn step_taken(
    pre_state: FsmState,
    event: FsmEvent,
    k: int,
    post_state: FsmState,
    post_terminated: bool,
    pre_log: Seq<FsmRecord>,
    post_log: Seq<FsmRecord>,
) -> bool {
    let cs = fsm_table(pre_state, event);
    &&& 0 <= k < cs.len()
    &&& (forall|j: int| 0 <= j < k ==> (#[trigger] cs[j].guard) is Some)
    &&& post_log == pre_log + taken_trace(pre_state, event, cs, k)
    &&& post_state == taken_state(pre_state, cs[k])
    &&& post_terminated == (post_state == FsmState::FinalPseudoState)
}

/// One dispatch discarded the event: every candidate is guarded and every
/// guard was called once, in order, and observed false; nothing else changed.
pub open spec fn step_discarded(
    pre_state: FsmState,
    event: FsmEvent,
    post_state: FsmState,
    post_terminated: bool,
    pre_log: Seq<FsmRecord>,
    post_log: Seq<FsmRecord>,
) -> bool {
    let cs = fsm_table(pre_state, event);
    &&& (forall|j: int| 0 <= j < cs.len() ==> (#[trigger] cs[j].guard) is Some)
    &&& post_log == pre_log + guards_tried(pre_state, event, cs, cs.len() as int)
    &&& post_state == pre_state
    &&& !post_terminated
}

/// What one dispatch of `event` from `pre_state` may do: take the first
/// candidate whose guard passed, or discard the event.
pub open spec fn dispatch_step(
    pre_state: FsmState,
    event: FsmEvent,
    post_state: FsmState,
    post_terminated: bool,
    pre_log: Seq<FsmRecord>,
    post_log: Seq<FsmRecord>,
) -> bool {
    ||| (exists|k: int|
        step_taken(pre_state, event, k, post_state, post_terminated, pre_log, post_log))
    ||| step_discarded(pre_state, event, post_state, post_terminated, pre_log, post_log)
}

/// Every candidate the table lists for a state names that state itself as its
/// source: the flat machine has no nesting to inherit from.
pub proof fn lemma_table_sources_are_ancestors(state: FsmState, event: FsmEvent)
    ensures
        forall|i: int|
            0 <= i < fsm_table(state, event).len() ==> is_ancestor(
                fsm_parents(),
                state_index(#[trigger] fsm_table(state, event)[i].source),
                state_index(state),
            ),
{
    reveal(fsm_table);
}

/// Run-to-completion ordering law, applied to this machine's own table: for
/// every row and every state-changing candidate in it, the exits and entries
/// are ordered as `lemma_run_to_completion_ordering` states, with no
/// assumption left to the caller.
pub proof fn lemma_table_run_to_completion(state: FsmState, event: FsmEvent, k: int)
    requires
        0 <= k < fsm_table(state, event).len(),
        fsm_table(state, event)[k].target matches TransitionTarget::State(t),
    ensures
        ({
            let cands = fsm_table(state, event);
            let src = state_index(cands[k].source);
            let tgt = state_index(cands[k].target->State_0);
            let b = boundary(fsm_parents(), src, tgt);
            let ex = chain_between(fsm_parents(), state_index(state), b);
            let en = entry_chain(fsm_parents(), fsm_children(), b, tgt);
            &&& forall|i: int|
                0 <= i < ex.len() - 1 ==> #[trigger] ex[i + 1] == fsm_parents()[ex[i]]
            &&& forall|i: int| 0 <= i < ex.len() ==> #[trigger] ex[i] != b
            &&& forall|i: int|
                0 <= i < en.len() - 1 ==> fsm_parents()[#[trigger] en[i + 1]] == en[i]
            &&& forall|i: int| 0 <= i < en.len() ==> #[trigger] en[i] != b
        }),
{
    lemma_table_sources_are_ancestors(state, event);
    lemma_run_to_completion_ordering(state, fsm_table(state, event), k);
}

/// Run-to-completion ordering law: when dispatch takes a state-changing
/// candidate whose source is an ancestor of (or equal to) the current state —
/// which every row of this table guarantees — the exit chain runs strictly
/// innermost to outermost (each exited state is followed by its own parent)
/// and the entry chain runs strictly outermost to innermost (each entered
/// state is the parent of the next), and the boundary the transition pivots
/// on — here always the root, as the tree is flat — appears in neither chain.
pub proof fn lemma_run_to_completion_ordering(
    cur: FsmState,
    cands: Seq<FsmTransitionView>,
    k: int,
)
    requires
        0 <= k < cands.len(),
        cands[k].target matches TransitionTarget::State(t),
        is_ancestor(fsm_parents(), state_index(cands[k].source), state_index(cur)),
    ensures
        ({
            let src = state_index(cands[k].source);
            let tgt = state_index(cands[k].target->State_0);
            let b = boundary(fsm_parents(), src, tgt);
            let ex = chain_between(fsm_parents(), state_index(cur), b);
            let en = entry_chain(fsm_parents(), fsm_children(), b, tgt);
            &&& forall|i: int|
                0 <= i < ex.len() - 1 ==> #[trigger] ex[i + 1] == fsm_parents()[ex[i]]
            &&& forall|i: int| 0 <= i < ex.len() ==> #[trigger] ex[i] != b
            &&& forall|i: int|
                0 <= i < en.len() - 1 ==> fsm_parents()[#[trigger] en[i + 1]] == en[i]
            &&& forall|i: int| 0 <= i < en.len() ==> #[trigger] en[i] != b
        }),
{
    let p = fsm_parents();
    let c = fsm_children();
    let cs = state_index(cur);
    let src = state_index(cands[k].source);
    let tgt = state_index(cands[k].target->State_0);
    let b = boundary(p, src, tgt);
    lemma_fsm_tree_wf();
    if src == tgt {
        assert(1 <= src < 8);
        assert((p[src] as int) < src);
        assert(is_ancestor(p, p[src] as int, p[src] as int));
        assert(is_ancestor(p, p[src] as int, src));
        lemma_ancestor_transitive(p, b, src, cs);
        assert(is_ancestor(p, b, tgt));
    } else {
        lemma_lca_common_ancestor(p, src, tgt);
        lemma_ancestor_transitive(p, b, src, cs);
    }
    lemma_exit_chain_innermost_first(p, cs, b);
    lemma_entry_chain_outermost_first(p, c, b, tgt);
}

/// Self-transition purity law: a dispatch that selects a self-transition
/// appends only guard and action records to the host's log — no state is
/// exited or entered.
pub proof fn lemma_self_transition_purity(
    cur: FsmState,
    event: FsmEvent,
    cands: Seq<FsmTransitionView>,
    k: int,
)
    requires
        0 <= k < cands.len(),
        cands[k].target is SelfTransition,
    ensures
        forall|i: int|
            0 <= i < taken_trace(cur, event, cands, k).len() ==> !((#[trigger] taken_trace(
                cur,
                event,
                cands,
                k,
            )[i]) is Entry) && !(taken_trace(cur, event, cands, k)[i] is Exit),
{
    lemma_guards_tried_only_guard_records(cur, event, cands, k);
    let tr = taken_trace(cur, event, cands, k);
    let gt = guards_tried(cur, event, cands, k);
    let gw = guards_winning(cur, event, cands, k);
    let ar = action_records::<FsmState, FsmEvent, FsmGuardId, FsmActionId>(
        cur,
        event,
        cands[k].actions,
    );
    assert(tr =~= gw + ar);
    assert forall|i: int| 0 <= i < tr.len() implies !((#[trigger] tr[i]) is Entry) && !(tr[i]
        is Exit) by {
        if i < gt.len() {
            assert(tr[i] == gt[i]);
        } else if i < gw.len() {
            assert(cands[k].guard matches Some(g) && tr[i] == Record::<
                FsmState,
                FsmEvent,
                FsmGuardId,
                FsmActionId,
            >::GuardCall(cur, event, g, true));
        } else {
            assert(tr[i] == ar[i - gw.len()]);
            assert(ar[i - gw.len()] == Record::<FsmState, FsmEvent, FsmGuardId, FsmActionId>::Action(
                cur,
                event,
                cands[k].actions[i - gw.len()],
            ));
        }
    }
}

fn emit_exits<H: FsmHooks>(host: &mut H, chain: &Vec<usize>)
    ensures
        final(host).log() == old(host).log() + exits_of(as_ints(chain@)),
{
    let ghost base = host.log();
    let mut i: usize = 0;
    assert(base + exits_of(as_ints(chain@.take(0))) =~= base);
    while i < chain.len()
        invariant
            i <= chain@.len(),
            host.log() == base + exits_of(as_ints(chain@.take(i as int))),
        decreases chain@.len() - i,
    {
        host.on_exit(state_of(chain[i]));
        proof {
            let j = i as int;
            assert(as_ints(chain@.take(j + 1)) =~= as_ints(chain@.take(j)).push(
                chain@[j] as int,
            ));
            assert(exits_of(as_ints(chain@.take(j + 1))) =~= exits_of(
                as_ints(chain@.take(j)),
            ).push(Record::Exit(state_at(chain@[j] as int))));
            assert(host.log() =~= base + exits_of(as_ints(chain@.take(j + 1))));
        }
        i = i + 1;
    }
    assert(chain@.take(chain@.len() as int) =~= chain@);
}

fn emit_entries<H: FsmHooks>(host: &mut H, chain: &Vec<usize>)
    ensures
        final(host).log() == old(host).log() + entries_of(as_ints(chain@)),
{
    let ghost base = host.log();
    let mut i: usize = 0;
    assert(base + entries_of(as_ints(chain@.take(0))) =~= base);
    while i < chain.len()
        invariant
            i <= chain@.len(),
            host.log() == base + entries_of(as_ints(chain@.take(i as int))),
        decreases chain@.len() - i,
    {
        host.on_entry(state_of(chain[i]));
        proof {
            let j = i as int;
            assert(as_ints(chain@.take(j + 1)) =~= as_ints(chain@.take(j)).push(
                chain@[j] as int,
            ));
            assert(entries_of(as_ints(chain@.take(j + 1))) =~= entries_of(
                as_ints(chain@.take(j)),
            ).push(Record::Entry(state_at(chain@[j] as int))));
            assert(host.log() =~= base + entries_of(as_ints(chain@.take(j + 1))));
        }
        i = i + 1;
    }
    assert(chain@.take(chain@.len() as int) =~= chain@);
}

fn emit_actions<H: FsmHooks>(
    host: &mut H,
    state: FsmState,
    event: FsmEvent,
    actions: &Vec<FsmActionId>,
)
    ensures
        final(host).log() == old(host).log() + action_records(state, event, actions@),
{
    let ghost base = host.log();
    let mut i: usize = 0;
    assert(base + action_records::<FsmState, FsmEvent, FsmGuardId, FsmActionId>(
        state,
        event,
        actions@.take(0),
    ) =~= base);
    while i < actions.len()
        invariant
            i <= actions@.len(),
            host.log() == base + action_records::<FsmState, FsmEvent, FsmGuardId, FsmActionId>(
                state,
                event,
                actions@.take(i as int),
            ),
        decreases actions@.len() - i,
    {
        host.action(state, event, actions[i]);
        proof {
            let j = i as int;
            assert(actions@.take(j + 1) =~= actions@.take(j).push(actions@[j]));
            assert(action_records::<FsmState, FsmEvent, FsmGuardId, FsmActionId>(
                state,
                event,
                actions@.take(j + 1),
            ) =~= action_records::<FsmState, FsmEvent, FsmGuardId, FsmActionId>(
                state,
                event,
                actions@.take(j),
            ).push(Record::Action(state, event, actions@[j])));
            assert(host.log() =~= base + action_records::<
                FsmState,
                FsmEvent,
                FsmGuardId,
                FsmActionId,
            >(state, event, actions@.take(j + 1)));
        }
        i = i + 1;
    }
    assert(actions@.take(actions@.len() as int) =~= actions@);
}

/// Tries the candidates in listed order against the host's guards and
/// returns the index of the first winner: an unguarded candidate wins
/// outright, a guarded one wins when its guard answers true. Exactly the
/// guards before and including the winner are called, each once, in order.
fn select_candidate<H: FsmHooks>(
    host: &mut H,
    st: FsmState,
    event: FsmEvent,
    cands: &Vec<FsmTransition>,
    Ghost(cs): Ghost<Seq<FsmTransitionView>>,
) -> (r: Option<usize>)
    requires
        cands@.len() == cs.len(),
        forall|i: int| 0 <= i < cands@.len() ==> (#[trigger] cands@[i])@ == cs[i],
    ensures
        match r {
            Some(k) => {
                &&& k < cands@.len()
                &&& (forall|j: int| 0 <= j < k ==> (#[trigger] cs[j].guard) is Some)
                &&& final(host).log() == old(host).log() + guards_winning(st, event, cs, k as int)
            },
            None => {
                &&& (forall|j: int| 0 <= j < cs.len() ==> (#[trigger] cs[j].guard) is Some)
                &&& final(host).log() == old(host).log() + guards_tried(
                    st,
                    event,
                    cs,
                    cs.len() as int,
                )
            },
        },
{
    let ghost base = host.log();
    let n = cands.len();
    let mut k: usize = 0;
    let mut selected: bool = false;
    proof {
        assert(base + guards_tried(st, event, cs, 0) =~= base);
    }
    while k < n && !selected
        invariant
            n == cands@.len(),
            cands@.len() == cs.len(),
            forall|i: int| 0 <= i < cands@.len() ==> (#[trigger] cands@[i])@ == cs[i],
            k <= n,
            forall|j: int| 0 <= j < k ==> (#[trigger] cs[j].guard) is Some,
            !selected ==> host.log() == base + guards_tried(st, event, cs, k as int),
            selected ==> k < n && host.log() == base + guards_winning(st, event, cs, k as int),
        decreases n - k + (if selected {
            0int
        } else {
            1int
        }),
    {
        let guard_opt = cands[k].guard;
        proof {
            assert(cands@[k as int]@ == cs[k as int]);
        }
        match guard_opt {
            None => {
                proof {
                    assert(guards_winning(st, event, cs, k as int) =~= guards_tried(
                        st,
                        event,
                        cs,
                        k as int,
                    ));
                }
                selected = true;
            },
            Some(g) => {
                let b = host.guard(st, event, g);
                proof {
                    if b {
                        assert(guards_winning(st, event, cs, k as int) =~= guards_tried(
                            st,
                            event,
                            cs,
                            k as int,
                        ).push(Record::GuardCall(st, event, g, true)));
                        assert(host.log() =~= base + guards_winning(st, event, cs, k as int));
                    } else {
                        assert(guards_tried(st, event, cs, k as int + 1) =~= guards_tried(
                            st,
                            event,
                            cs,
                            k as int,
                        ).push(Record::GuardCall(st, event, g, false)));
                        assert(host.log() =~= base + guards_tried(st, event, cs, k as int + 1));
                    }
                }
                if b {
                    selected = true;
                } else {
                    k = k + 1;
                }
            },
        }
    }
    if selected {
        Some(k)
    } else {
        None
    }
}

/// The exact action ids `start` fires, in order: none for the flat machine.
pub fn fsm_initial_actions() -> (v: Vec<FsmActionId>)
    ensures
        v@ == initial_actions(),
{
    let v: Vec<FsmActionId> = Vec::new();
    assert(v@ =~= initial_actions());
    v
}

/// A flat state machine instance: the fixed depth-one state tree, the current
/// state, the lifecycle flags, and the host it notifies.
pub struct FsmMachine<H: FsmHooks> {
    hooks: H,
    state: FsmState,
    started: bool,
    terminated: bool,
    tree: StateTree,
}

impl<H: FsmHooks> FsmMachine<H> {
    pub closed spec fn spec_state(&self) -> FsmState {
        self.state
    }

    pub closed spec fn spec_started(&self) -> bool {
        self.started
    }

    pub closed spec fn spec_terminated(&self) -> bool {
        self.terminated
    }

    pub closed spec fn host(&self) -> H {
        self.hooks
    }

    /// The machine carries exactly the fixed tree of this statechart.
    pub closed spec fn wf(&self) -> bool {
        &&& self.tree.parents() == fsm_parents()
        &&& self.tree.children() == fsm_children()
    }

    /// Lifecycle invariant, established by `new` and `reset` and preserved by
    /// `start` and `dispatch`: the machine is terminated exactly when it sits
    /// in the final pseudostate, and it is started exactly when it has left
    /// the initial pseudostate.
    pub open spec fn lifecycle_inv(&self) -> bool {
        &&& (self.spec_terminated() <==> self.spec_state() == FsmState::FinalPseudoState)
        &&& (self.spec_started() <==> self.spec_state() != FsmState::InitialPseudoState)
    }

    pub fn new(hooks: H) -> (m: Self)
        ensures
            m.wf(),
            m.lifecycle_inv(),
            m.spec_state() == FsmState::InitialPseudoState,
            !m.spec_started(),
            !m.spec_terminated(),
            m.host() == hooks,
    {
        let mut parent: Vec<usize> = Vec::new();
        parent.push(0);
        parent.push(0);
        parent.push(0);
        parent.push(0);
        parent.push(0);
        parent.push(0);
        parent.push(0);
        parent.push(0);
        let mut child: Vec<usize> = Vec::new();
        child.push(2);
        child.push(1);
        child.push(2);
        child.push(3);
        child.push(4);
        child.push(5);
        child.push(6);
        child.push(7);
        assert(parent@ =~= fsm_parents());
        assert(child@ =~= fsm_children());
        let tree = StateTree::new(parent, child);
        let mut machine = FsmMachine {
            hooks,
            state: FsmState::InitialPseudoState,
            started: false,
            terminated: false,
            tree,
        };
        machine.reset();
        machine
    }

    /// Returns the machine to the pre-start condition. The host keeps
    /// whatever it has accumulated: nothing is emitted and nothing undone.
    pub fn reset(&mut self)
        ensures
            final(self).wf() == old(self).wf(),
            final(self).lifecycle_inv(),
            final(self).spec_state() == FsmState::InitialPseudoState,
            !final(self).spec_started(),
            !final(self).spec_terminated(),
            final(self).host() == old(self).host(),
    {
        self.terminated = false;
        self.started = false;
        self.state = FsmState::InitialPseudoState;
    }

    /// Enters the default configuration: enters every state from the root's
    /// default child down to the default leaf. A started or terminated
    /// machine is unchanged.
    pub fn start(&mut self)
        requires
            old(self).wf(),
        ensures
            final(self).wf(),
            old(self).lifecycle_inv() ==> final(self).lifecycle_inv(),
            old(self).spec_started() || old(self).spec_terminated() ==> *final(self) == *old(
                self,
            ),
            !old(self).spec_started() && !old(self).spec_terminated() ==> ({
                &&& final(self).spec_started()
                &&& !final(self).spec_terminated()
                &&& final(self).spec_state() == initial_leaf()
                &&& final(self).host().log() == old(self).host().log() + start_trace()
            }),
    {
        proof {
            lemma_initial_leaf();
        }
        if self.terminated || self.started {
            return ;
        }
        self.started = true;
        let root_child = self.tree.root_child();
        let acts = fsm_initial_actions();
        emit_actions(&mut self.hooks, state_of(root_child), FsmEvent::default(), &acts);
        let entries = self.tree.entry_chain_of(0, 0);
        emit_entries(&mut self.hooks, &entries);
        let leaf = self.tree.leaf_under(0);
        self.state = state_of(leaf);
        proof {
            assert(entries_of(as_ints(entries@)) =~= entry_trace(0, 0));
            assert(self.hooks.log() =~= old(self).hooks.log() + start_trace());
        }
    }

    /// The current state.
    pub fn state(&self) -> (r: FsmState)
        ensures
            r == self.spec_state(),
    {
        self.state
    }

    pub fn terminated(&self) -> (r: bool)
        ensures
            r == self.spec_terminated(),
    {
        self.terminated
    }

    pub fn hooks(&self) -> (r: &H)
        ensures
            *r == self.host(),
    {
        &self.hooks
    }

    /// Runs one event to completion. A terminated machine ignores everything.
    /// An unstarted machine first enters its default configuration, then
    /// dispatches from the default leaf. The candidates for the current state
    /// and the event are tried in listed order — a guarded one by calling the
    /// host's guard, an unguarded one winning outright — and the first winner
    /// fires its exit chain, actions and entry chain, leaving the machine in
    /// the taken state; if none wins, the event is discarded, and with no
    /// table entry at all the machine and its host are left entirely
    /// unchanged.
    #[verifier::rlimit(100)]
    #[verifier::spinoff_prover]
    pub fn dispatch(&mut self, event: FsmEvent)
        requires
            old(self).wf(),
        ensures
            final(self).wf(),
            old(self).lifecycle_inv() ==> final(self).lifecycle_inv(),
            old(self).spec_terminated() ==> *final(self) == *old(self),
            !old(self).spec_terminated() ==> final(self).spec_started(),
            !old(self).spec_terminated() ==> dispatch_step(
                if old(self).spec_started() {
                    old(self).spec_state()
                } else {
                    initial_leaf()
                },
                event,
                final(self).spec_state(),
                final(self).spec_terminated(),
                old(self).host().log() + if old(self).spec_started() {
                    Seq::<FsmRecord>::empty()
                } else {
                    start_trace()
                },
                final(self).host().log(),
            ),
            old(self).spec_started() && !old(self).spec_terminated() && fsm_table(
                old(self).spec_state(),
                event,
            ).len() == 0 ==> *final(self) == *old(self),
    {
        if self.terminated {
            return ;
        }
        if !self.started {
            self.start();
        }
        proof {
            lemma_initial_leaf();
            if old(self).spec_started() {
                assert(old(self).host().log() + Seq::<FsmRecord>::empty() =~= old(
                    self,
                ).host().log());
            }
        }
        let ghost pre = self.state;
        let ghost base = self.hooks.log();
        on_event(self.state, event);
        let cands = fsm_candidates(self.state, event);
        let ghost cs = fsm_table(pre, event);
        let n = cands.len();
        proof {
            assert(base + guards_tried(pre, event, cs, 0) =~= base);
        }
        if n == 0 {
            proof {
                assert(step_discarded(
                    pre,
                    event,
                    self.state,
                    self.terminated,
                    base,
                    self.hooks.log(),
                ));
            }
            return ;
        }
        let sel = select_candidate(&mut self.hooks, self.state, event, &cands, Ghost(cs));
        let k: usize = match sel {
            None => {
                proof {
                    assert(step_discarded(
                        pre,
                        event,
                        self.state,
                        self.terminated,
                        base,
                        self.hooks.log(),
                    ));
                }
                return ;
            },
            Some(chosen_index) => chosen_index,
        };
        let ghost ki = k as int;
        let chosen = &cands[k];
        proof {
            assert(cands@[ki]@ == cs[ki]);
        }
        match chosen.target {
            TransitionTarget::SelfTransition => {
                on_transition(self.state, self.state, event);
                emit_actions(&mut self.hooks, self.state, event, &chosen.actions);
                proof {
                    lemma_taken_log_self(base, pre, event, cs, ki);
                    assert(self.hooks.log() == base + taken_trace(pre, event, cs, ki));
                    assert(pre != FsmState::FinalPseudoState) by {
                        reveal(fsm_table);
                    }
                    assert(step_taken(
                        pre,
                        event,
                        ki,
                        self.state,
                        self.terminated,
                        base,
                        self.hooks.log(),
                    ));
                }
            },
            TransitionTarget::State(t) => {
                let cur_i = index_of(self.state);
                let src_i = index_of(chosen.source);
                let tgt_i = index_of(t);
                proof {
                    lemma_fsm_tree_wf();
                }
                let stop = self.tree.boundary_of(src_i, tgt_i);
                let leaf = self.tree.leaf_under(tgt_i);
                let next = state_of(leaf);
                on_transition(self.state, next, event);
                let exits = self.tree.exit_chain(cur_i, stop);
                emit_exits(&mut self.hooks, &exits);
                emit_actions(&mut self.hooks, self.state, event, &chosen.actions);
                let entries = self.tree.entry_chain_of(stop, tgt_i);
                emit_entries(&mut self.hooks, &entries);
                self.state = next;
                if next == FsmState::FinalPseudoState {
                    self.terminated = true;
                }
                proof {
                    let bb = boundary(
                        fsm_parents(),
                        state_index(cs[ki].source),
                        state_index(t),
                    );
                    assert(stop as int == bb);
                    lemma_table_targets_land_on_leaves(pre, event);
                    lemma_taken_log_change(base, pre, event, cs, ki, t);
                    assert(exits_of(as_ints(exits@)) == exit_trace(state_index(pre), bb));
                    assert(entries_of(as_ints(entries@)) == entry_trace(bb, state_index(t)));
                    assert(self.hooks.log() == base + taken_trace(pre, event, cs, ki));
                    assert(self.state == taken_state(pre, cs[ki]));
                    assert(step_taken(
                        pre,
                        event,
                        ki,
                        self.state,
                        self.terminated,
                        base,
                        self.hooks.log(),
                    ));
                }
            },
        }
    }

    pub fn hooks_mut(&mut self) -> (r: &mut H)
        ensures
            *r == old(self).host(),
            final(self).host() == *final(r),
            final(self).spec_state() == old(self).spec_state(),
            final(self).spec_started() == old(self).spec_started(),
            final(self).spec_terminated() == old(self).spec_terminated(),
            final(self).wf() == old(self).wf(),
    {
        &mut self.hooks
    }
}

/// A reference host: it records every callback in order, and answers every
/// guard from a single flag the caller can set between dispatches.
pub struct FsmRecorder {
    pub records: Vec<FsmRecord>,
    pub permit: bool,
}

impl FsmRecorder {
    pub fn new() -> (r: Self)
        ensures
            r.records@ == Seq::<FsmRecord>::empty(),
            r.permit == true,
    {
        FsmRecorder { records: Vec::new(), permit: true }
    }

    /// Forgets everything recorded so far; the flag keeps its value.
    pub fn reset_logs(&mut self)
        ensures
            final(self).records@ == Seq::<FsmRecord>::empty(),
            final(self).permit == old(self).permit,
    {
        self.records.clear();
    }
}

impl FsmHooks for FsmRecorder {
    open spec fn log(&self) -> Seq<FsmRecord> {
        self.records@
    }

    fn on_entry(&mut self, state: FsmState)
        ensures
            final(self).permit == old(self).permit,
    {
        self.records.push(Record::Entry(state));
    }

    fn on_exit(&mut self, state: FsmState)
        ensures
            final(self).permit == old(self).permit,
    {
        self.records.push(Record::Exit(state));
    }

    /// Answers every guard with the flag, and leaves the flag unchanged.
    fn guard(&mut self, state: FsmState, event: FsmEvent, guard: FsmGuardId) -> (b: bool)
        ensures
            b == old(self).permit,
            final(self).permit == old(self).permit,
    {
        let b = self.permit;
        self.records.push(Record::GuardCall(state, event, guard, b));
        b
    }

    /// Only records; the flag is left unchanged.
    fn action(&mut self, state: FsmState, event: FsmEvent, action: FsmActionId)
        ensures
            final(self).permit == old(self).permit,
    {
        self.records.push(Record::Action(state, event, action));
    }
}

} // verus!
