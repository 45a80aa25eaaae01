use vstd::prelude::*;

use crate::table::{
    action_records, guards_tried, guards_winning, lemma_guards_tried_only_guard_records,
    opt_actions, Record, Transition, TransitionTarget, TransitionView,
};
use crate::tree::{
    as_ints, boundary, chain_between, default_leaf, entry_chain, is_ancestor,
    lemma_ancestor_transitive, lemma_entry_chain_outermost_first,
    lemma_exit_chain_innermost_first, lemma_lca_common_ancestor, tree_wf, StateTree,
};

verus! {

#[allow(non_camel_case_types)]
#[derive(Clone, Copy, Debug, PartialEq, Eq, Structural)]
pub enum HsmState {
    InitialPseudoState,
    s,
    s1,
    s11,
    s2,
    s21,
    s211,
    FinalPseudoState,
}

#[derive(Clone, Copy, Debug, PartialEq, Eq, Structural)]
pub enum HsmEvent {
    A,
    B,
    C,
    D,
    E,
    F,
    G,
    H,
    I,
    TERMINATE,
}

impl Default for HsmEvent {
    /// The pseudo-event passed to callbacks during the initial entry sequence.
    fn default() -> (r: Self)
        ensures
            r == HsmEvent::A,
    {
        HsmEvent::A
    }
}

#[allow(non_camel_case_types)]
#[derive(Clone, Copy, Debug, PartialEq, Eq, Structural)]
pub enum HsmGuardId {
    isFooTrue,
    isFooFalse,
}

#[allow(non_camel_case_types)]
#[derive(Clone, Copy, Debug, PartialEq, Eq, Structural)]
pub enum HsmActionId {
    setFooFalse,
    setFooTrue,
}

pub type HsmRecord = Record<HsmState, HsmEvent, HsmGuardId, HsmActionId>;

pub type HsmTransition = Transition<HsmState, HsmGuardId, HsmActionId>;

pub type HsmTransitionView = TransitionView<HsmState, HsmGuardId, HsmActionId>;

/// The host-side capability surface the machine notifies. The abstract `log`
/// names everything the host has observed so far, newest last; each callback
/// appends exactly its own record, so a machine contract over `log` pins the
/// exact sequence of notifications a dispatch makes.
pub trait HsmCallbacks: Sized {
    spec fn log(&self) -> Seq<HsmRecord>;

    fn on_entry(&mut self, state: HsmState)
        ensures
            final(self).log() == old(self).log().push(Record::Entry(state)),
    ;

    fn on_exit(&mut self, state: HsmState)
        ensures
            final(self).log() == old(self).log().push(Record::Exit(state)),
    ;

    fn guard(&mut self, state: HsmState, event: HsmEvent, guard: HsmGuardId) -> (b: bool)
        ensures
            final(self).log() == old(self).log().push(Record::GuardCall(state, event, guard, b)),
    ;

    fn action(&mut self, state: HsmState, event: HsmEvent, action: HsmActionId)
        ensures
            final(self).log() == old(self).log().push(Record::Action(state, event, action)),
    ;
}

/// Observation point invoked once per accepted event; it does nothing.
pub fn on_event(_state: HsmState, _event: HsmEvent) {
}

/// Observation point invoked once per selected transition; it does nothing.
pub fn on_transition(_from: HsmState, _to: HsmState, _event: HsmEvent) {
}

/// Node numbering of the state tree: the synthetic root is 0 and every
/// parent's index is smaller than its children's.
pub open spec fn state_index(st: HsmState) -> int {
    match st {
        HsmState::InitialPseudoState => 1,
        HsmState::s => 2,
        HsmState::s1 => 3,
        HsmState::s11 => 4,
        HsmState::s2 => 5,
        HsmState::s21 => 6,
        HsmState::s211 => 7,
        HsmState::FinalPseudoState => 8,
    }
}

pub open spec fn state_at(i: int) -> HsmState {
    if i == 2 {
        HsmState::s
    } else if i == 3 {
        HsmState::s1
    } else if i == 4 {
        HsmState::s11
    } else if i == 5 {
        HsmState::s2
    } else if i == 6 {
        HsmState::s21
    } else if i == 7 {
        HsmState::s211
    } else if i == 8 {
        HsmState::FinalPseudoState
    } else {
        HsmState::InitialPseudoState
    }
}

pub fn index_of(st: HsmState) -> (i: usize)
    ensures
        i as int == state_index(st),
{
    match st {
        HsmState::InitialPseudoState => 1,
        HsmState::s => 2,
        HsmState::s1 => 3,
        HsmState::s11 => 4,
        HsmState::s2 => 5,
        HsmState::s21 => 6,
        HsmState::s211 => 7,
        HsmState::FinalPseudoState => 8,
    }
}

pub fn state_of(i: usize) -> (r: HsmState)
    ensures
        r == state_at(i as int),
{
    if i == 2 {
        HsmState::s
    } else if i == 3 {
        HsmState::s1
    } else if i == 4 {
        HsmState::s11
    } else if i == 5 {
        HsmState::s2
    } else if i == 6 {
        HsmState::s21
    } else if i == 7 {
        HsmState::s211
    } else if i == 8 {
        HsmState::FinalPseudoState
    } else {
        HsmState::InitialPseudoState
    }
}

/// Parent of each node: root 0; InitialPseudoState (1), s (2) and
/// FinalPseudoState (8) hang off the root; s1 (3) and s2 (5) nest in s;
/// s11 (4) in s1; s21 (6) in s2; s211 (7) in s21.
pub open spec fn hsm_parents() -> Seq<usize> {
    seq![0usize, 0, 0, 2, 3, 2, 5, 6, 0]
}

/// Default child of each node: the root defaults into s, s into s2, s2 into
/// s21, s21 into s211, and s1 into s11; leaves hold themselves.
pub open spec fn hsm_children() -> Seq<usize> {
    seq![2usize, 1, 5, 4, 4, 6, 7, 7, 8]
}

pub proof fn lemma_hsm_tree_wf()
    ensures
        tree_wf(hsm_parents(), hsm_children()),
{
    let p = hsm_parents();
    let c = hsm_children();
    assert(p.len() == 9);
    assert(c.len() == 9);
    assert forall|i: int| 1 <= i < 9 implies (#[trigger] p[i]) < i by {
        if i == 1 {
            assert(p[1] == 0);
        } else if i == 2 {
            assert(p[2] == 0);
        } else if i == 3 {
            assert(p[3] == 2);
        } else if i == 4 {
            assert(p[4] == 3);
        } else if i == 5 {
            assert(p[5] == 2);
        } else if i == 6 {
            assert(p[6] == 5);
        } else if i == 7 {
            assert(p[7] == 6);
        } else {
            assert(p[8] == 0);
        }
    }
    assert forall|i: int| 0 <= i < 9 implies ((#[trigger] c[i]) == i || (i < c[i] && c[i] < 9
        && p[c[i] as int] == i)) by {
        if i == 0 {
            assert(c[0] == 2 && p[2] == 0);
        } else if i == 1 {
            assert(c[1] == 1);
        } else if i == 2 {
            assert(c[2] == 5 && p[5] == 2);
        } else if i == 3 {
            assert(c[3] == 4 && p[4] == 3);
        } else if i == 4 {
            assert(c[4] == 4);
        } else if i == 5 {
            assert(c[5] == 6 && p[6] == 5);
        } else if i == 6 {
            assert(c[6] == 7 && p[7] == 6);
        } else if i == 7 {
            assert(c[7] == 7);
        } else {
            assert(c[8] == 8);
        }
    }
}

/// Shorthand for one candidate transition with at most one action.
pub open spec fn cand(
    source: HsmState,
    guard: Option<HsmGuardId>,
    action: Option<HsmActionId>,
    target: TransitionTarget<HsmState>,
) -> HsmTransitionView {
    TransitionView { source, guard, actions: opt_actions(action), target }
}

/// The transition table: the ordered candidates for each (current state,
/// event) pair. Each candidate names the state that defines it — an ancestor
/// of, or equal to, the current state — which fixes the boundary its exit and
/// entry chains pivot on. A pair with no entry means the event is discarded.
#[verifier::opaque]
pub open spec fn hsm_table(state: HsmState, event: HsmEvent) -> Seq<HsmTransitionView> {
    match state {
        HsmState::s => match event {
            HsmEvent::I => seq![
                cand(
                    HsmState::s,
                    Some(HsmGuardId::isFooTrue),
                    Some(HsmActionId::setFooFalse),
                    TransitionTarget::SelfTransition,
                ),
            ],
            HsmEvent::TERMINATE => seq![
                cand(HsmState::s, None, None, TransitionTarget::State(HsmState::FinalPseudoState)),
            ],
            HsmEvent::E => seq![
                cand(HsmState::s, None, None, TransitionTarget::State(HsmState::s11)),
            ],
            _ => Seq::empty(),
        },
        HsmState::s1 => match event {
            HsmEvent::I => seq![cand(HsmState::s1, None, None, TransitionTarget::SelfTransition)],
            HsmEvent::D => seq![
                cand(
                    HsmState::s1,
                    Some(HsmGuardId::isFooFalse),
                    Some(HsmActionId::setFooTrue),
                    TransitionTarget::State(HsmState::s1),
                ),
            ],
            HsmEvent::A => seq![
                cand(HsmState::s1, None, None, TransitionTarget::State(HsmState::s1)),
            ],
            HsmEvent::B => seq![
                cand(HsmState::s1, None, None, TransitionTarget::State(HsmState::s11)),
            ],
            HsmEvent::C => seq![
                cand(HsmState::s1, None, None, TransitionTarget::State(HsmState::s2)),
            ],
            HsmEvent::F => seq![
                cand(HsmState::s1, None, None, TransitionTarget::State(HsmState::s211)),
            ],
            HsmEvent::TERMINATE => seq![
                cand(HsmState::s, None, None, TransitionTarget::State(HsmState::FinalPseudoState)),
            ],
            HsmEvent::E => seq![
                cand(HsmState::s, None, None, TransitionTarget::State(HsmState::s11)),
            ],
            _ => Seq::empty(),
        },
        HsmState::s11 => match event {
            HsmEvent::G => seq![
                cand(HsmState::s11, None, None, TransitionTarget::State(HsmState::s211)),
            ],
            HsmEvent::H => seq![
                cand(HsmState::s11, None, None, TransitionTarget::State(HsmState::s11)),
            ],
            HsmEvent::D => seq![
                cand(
                    HsmState::s11,
                    Some(HsmGuardId::isFooTrue),
                    Some(HsmActionId::setFooFalse),
                    TransitionTarget::State(HsmState::s11),
                ),
                cand(
                    HsmState::s1,
                    Some(HsmGuardId::isFooFalse),
                    Some(HsmActionId::setFooTrue),
                    TransitionTarget::State(HsmState::s1),
                ),
            ],
            HsmEvent::I => seq![cand(HsmState::s1, None, None, TransitionTarget::SelfTransition)],
            HsmEvent::A => seq![
                cand(HsmState::s1, None, None, TransitionTarget::State(HsmState::s1)),
            ],
            HsmEvent::B => seq![
                cand(HsmState::s1, None, None, TransitionTarget::State(HsmState::s11)),
            ],
            HsmEvent::C => seq![
                cand(HsmState::s1, None, None, TransitionTarget::State(HsmState::s2)),
            ],
            HsmEvent::F => seq![
                cand(HsmState::s1, None, None, TransitionTarget::State(HsmState::s211)),
            ],
            HsmEvent::TERMINATE => seq![
                cand(HsmState::s, None, None, TransitionTarget::State(HsmState::FinalPseudoState)),
            ],
            HsmEvent::E => seq![
                cand(HsmState::s, None, None, TransitionTarget::State(HsmState::s11)),
            ],
        },
        HsmState::s2 => match event {
            HsmEvent::I => seq![
                cand(
                    HsmState::s2,
                    Some(HsmGuardId::isFooFalse),
                    Some(HsmActionId::setFooTrue),
                    TransitionTarget::SelfTransition,
                ),
                cand(
                    HsmState::s2,
                    Some(HsmGuardId::isFooTrue),
                    Some(HsmActionId::setFooFalse),
                    TransitionTarget::SelfTransition,
                ),
            ],
            HsmEvent::C => seq![
                cand(HsmState::s2, None, None, TransitionTarget::State(HsmState::s1)),
            ],
            HsmEvent::F => seq![
                cand(HsmState::s2, None, None, TransitionTarget::State(HsmState::s11)),
            ],
            HsmEvent::TERMINATE => seq![
                cand(HsmState::s, None, None, TransitionTarget::State(HsmState::FinalPseudoState)),
            ],
            HsmEvent::E => seq![
                cand(HsmState::s, None, None, TransitionTarget::State(HsmState::s11)),
            ],
            _ => Seq::empty(),
        },
        HsmState::s21 => match event {
            HsmEvent::G => seq![
                cand(HsmState::s21, None, None, TransitionTarget::State(HsmState::s11)),
            ],
            HsmEvent::A => seq![
                cand(HsmState::s21, None, None, TransitionTarget::State(HsmState::s21)),
            ],
            HsmEvent::B => seq![
                cand(HsmState::s21, None, None, TransitionTarget::State(HsmState::s211)),
            ],
            HsmEvent::I => seq![
                cand(
                    HsmState::s2,
                    Some(HsmGuardId::isFooFalse),
                    Some(HsmActionId::setFooTrue),
                    TransitionTarget::SelfTransition,
                ),
                cand(
                    HsmState::s2,
                    Some(HsmGuardId::isFooTrue),
                    Some(HsmActionId::setFooFalse),
                    TransitionTarget::SelfTransition,
                ),
            ],
            HsmEvent::C => seq![
                cand(HsmState::s2, None, None, TransitionTarget::State(HsmState::s1)),
            ],
            HsmEvent::F => seq![
                cand(HsmState::s2, None, None, TransitionTarget::State(HsmState::s11)),
            ],
            HsmEvent::TERMINATE => seq![
                cand(HsmState::s, None, None, TransitionTarget::State(HsmState::FinalPseudoState)),
            ],
            HsmEvent::E => seq![
                cand(HsmState::s, None, None, TransitionTarget::State(HsmState::s11)),
            ],
            _ => Seq::empty(),
        },
        HsmState::s211 => match event {
            HsmEvent::D => seq![
                cand(HsmState::s211, None, None, TransitionTarget::State(HsmState::s21)),
            ],
            HsmEvent::H => seq![
                cand(HsmState::s211, None, None, TransitionTarget::State(HsmState::s11)),
            ],
            HsmEvent::G => seq![
                cand(HsmState::s21, None, None, TransitionTarget::State(HsmState::s11)),
            ],
            HsmEvent::A => seq![
                cand(HsmState::s21, None, None, TransitionTarget::State(HsmState::s21)),
            ],
            HsmEvent::B => seq![
                cand(HsmState::s21, None, None, TransitionTarget::State(HsmState::s211)),
            ],
            HsmEvent::I => seq![
                cand(
                    HsmState::s2,
                    Some(HsmGuardId::isFooFalse),
                    Some(HsmActionId::setFooTrue),
                    TransitionTarget::SelfTransition,
                ),
                cand(
                    HsmState::s2,
                    Some(HsmGuardId::isFooTrue),
                    Some(HsmActionId::setFooFalse),
                    TransitionTarget::SelfTransition,
                ),
            ],
            HsmEvent::C => seq![
                cand(HsmState::s2, None, None, TransitionTarget::State(HsmState::s1)),
            ],
            HsmEvent::F => seq![
                cand(HsmState::s2, None, None, TransitionTarget::State(HsmState::s11)),
            ],
            HsmEvent::TERMINATE => seq![
                cand(HsmState::s, None, None, TransitionTarget::State(HsmState::FinalPseudoState)),
            ],
            HsmEvent::E => seq![
                cand(HsmState::s, None, None, TransitionTarget::State(HsmState::s11)),
            ],
        },
        HsmState::InitialPseudoState => Seq::empty(),
        HsmState::FinalPseudoState => Seq::empty(),
    }
}

/// The candidates for one (current state, event) pair, in table order.
pub fn hsm_candidates(state: HsmState, event: HsmEvent) -> (v: Vec<HsmTransition>)
    ensures
        v@.len() == hsm_table(state, event).len(),
        forall|i: int| 0 <= i < v@.len() ==> (#[trigger] v@[i])@ == hsm_table(state, event)[i],
{
    proof {
        reveal(hsm_table);
    }
    let mut v: Vec<HsmTransition> = Vec::new();
    match state {
        HsmState::s => match event {
            HsmEvent::I => {
                v.push(
                    Transition::make(
                        HsmState::s,
                        Some(HsmGuardId::isFooTrue),
                        Some(HsmActionId::setFooFalse),
                        TransitionTarget::SelfTransition,
                    ),
                );
            },
            HsmEvent::TERMINATE => {
                v.push(
                    Transition::make(
                        HsmState::s,
                        None,
                        None,
                        TransitionTarget::State(HsmState::FinalPseudoState),
                    ),
                );
            },
            HsmEvent::E => {
                v.push(
                    Transition::make(
                        HsmState::s,
                        None,
                        None,
                        TransitionTarget::State(HsmState::s11),
                    ),
                );
            },
            _ => {},
        },
        HsmState::s1 => match event {
            HsmEvent::I => {
                v.push(
                    Transition::make(HsmState::s1, None, None, TransitionTarget::SelfTransition),
                );
            },
            HsmEvent::D => {
                v.push(
                    Transition::make(
                        HsmState::s1,
                        Some(HsmGuardId::isFooFalse),
                        Some(HsmActionId::setFooTrue),
                        TransitionTarget::State(HsmState::s1),
                    ),
                );
            },
            HsmEvent::A => {
                v.push(
                    Transition::make(
                        HsmState::s1,
                        None,
                        None,
                        TransitionTarget::State(HsmState::s1),
                    ),
                );
            },
            HsmEvent::B => {
                v.push(
                    Transition::make(
                        HsmState::s1,
                        None,
                        None,
                        TransitionTarget::State(HsmState::s11),
                    ),
                );
            },
            HsmEvent::C => {
                v.push(
                    Transition::make(
                        HsmState::s1,
                        None,
                        None,
                        TransitionTarget::State(HsmState::s2),
                    ),
                );
            },
            HsmEvent::F => {
                v.push(
                    Transition::make(
                        HsmState::s1,
                        None,
                        None,
                        TransitionTarget::State(HsmState::s211),
                    ),
                );
            },
            HsmEvent::TERMINATE => {
                v.push(
                    Transition::make(
                        HsmState::s,
                        None,
                        None,
                        TransitionTarget::State(HsmState::FinalPseudoState),
                    ),
                );
            },
            HsmEvent::E => {
                v.push(
                    Transition::make(
                        HsmState::s,
                        None,
                        None,
                        TransitionTarget::State(HsmState::s11),
                    ),
                );
            },
            _ => {},
        },
        HsmState::s11 => match event {
            HsmEvent::G => {
                v.push(
                    Transition::make(
                        HsmState::s11,
                        None,
                        None,
                        TransitionTarget::State(HsmState::s211),
                    ),
                );
            },
            HsmEvent::H => {
                v.push(
                    Transition::make(
                        HsmState::s11,
                        None,
                        None,
                        TransitionTarget::State(HsmState::s11),
                    ),
                );
            },
            HsmEvent::D => {
                v.push(
                    Transition::make(
                        HsmState::s11,
                        Some(HsmGuardId::isFooTrue),
                        Some(HsmActionId::setFooFalse),
                        TransitionTarget::State(HsmState::s11),
                    ),
                );
                v.push(
                    Transition::make(
                        HsmState::s1,
                        Some(HsmGuardId::isFooFalse),
                        Some(HsmActionId::setFooTrue),
                        TransitionTarget::State(HsmState::s1),
                    ),
                );
            },
            HsmEvent::I => {
                v.push(
                    Transition::make(HsmState::s1, None, None, TransitionTarget::SelfTransition),
                );
            },
            HsmEvent::A => {
                v.push(
                    Transition::make(
                        HsmState::s1,
                        None,
                        None,
                        TransitionTarget::State(HsmState::s1),
                    ),
                );
            },
            HsmEvent::B => {
                v.push(
                    Transition::make(
                        HsmState::s1,
                        None,
                        None,
                        TransitionTarget::State(HsmState::s11),
                    ),
                );
            },
            HsmEvent::C => {
                v.push(
                    Transition::make(
                        HsmState::s1,
                        None,
                        None,
                        TransitionTarget::State(HsmState::s2),
                    ),
                );
            },
            HsmEvent::F => {
                v.push(
                    Transition::make(
                        HsmState::s1,
                        None,
                        None,
                        TransitionTarget::State(HsmState::s211),
                    ),
                );
            },
            HsmEvent::TERMINATE => {
                v.push(
                    Transition::make(
                        HsmState::s,
                        None,
                        None,
                        TransitionTarget::State(HsmState::FinalPseudoState),
                    ),
                );
            },
            HsmEvent::E => {
                v.push(
                    Transition::make(
                        HsmState::s,
                        None,
                        None,
                        TransitionTarget::State(HsmState::s11),
                    ),
                );
            },
        },
        HsmState::s2 => match event {
            HsmEvent::I => {
                v.push(
                    Transition::make(
                        HsmState::s2,
                        Some(HsmGuardId::isFooFalse),
                        Some(HsmActionId::setFooTrue),
                        TransitionTarget::SelfTransition,
                    ),
                );
                v.push(
                    Transition::make(
                        HsmState::s2,
                        Some(HsmGuardId::isFooTrue),
                        Some(HsmActionId::setFooFalse),
                        TransitionTarget::SelfTransition,
                    ),
                );
            },
            HsmEvent::C => {
                v.push(
                    Transition::make(
                        HsmState::s2,
                        None,
                        None,
                        TransitionTarget::State(HsmState::s1),
                    ),
                );
            },
            HsmEvent::F => {
                v.push(
                    Transition::make(
                        HsmState::s2,
                        None,
                        None,
                        TransitionTarget::State(HsmState::s11),
                    ),
                );
            },
            HsmEvent::TERMINATE => {
                v.push(
                    Transition::make(
                        HsmState::s,
                        None,
                        None,
                        TransitionTarget::State(HsmState::FinalPseudoState),
                    ),
                );
            },
            HsmEvent::E => {
                v.push(
                    Transition::make(
                        HsmState::s,
                        None,
                        None,
                        TransitionTarget::State(HsmState::s11),
                    ),
                );
            },
            _ => {},
        },
        HsmState::s21 => match event {
            HsmEvent::G => {
                v.push(
                    Transition::make(
                        HsmState::s21,
                        None,
                        None,
                        TransitionTarget::State(HsmState::s11),
                    ),
                );
            },
            HsmEvent::A => {
                v.push(
                    Transition::make(
                        HsmState::s21,
                        None,
                        None,
                        TransitionTarget::State(HsmState::s21),
                    ),
                );
            },
            HsmEvent::B => {
                v.push(
                    Transition::make(
                        HsmState::s21,
                        None,
                        None,
                        TransitionTarget::State(HsmState::s211),
                    ),
                );
            },
            HsmEvent::I => {
                v.push(
                    Transition::make(
                        HsmState::s2,
                        Some(HsmGuardId::isFooFalse),
                        Some(HsmActionId::setFooTrue),
                        TransitionTarget::SelfTransition,
                    ),
                );
                v.push(
                    Transition::make(
                        HsmState::s2,
                        Some(HsmGuardId::isFooTrue),
                        Some(HsmActionId::setFooFalse),
                        TransitionTarget::SelfTransition,
                    ),
                );
            },
            HsmEvent::C => {
                v.push(
                    Transition::make(
                        HsmState::s2,
                        None,
                        None,
                        TransitionTarget::State(HsmState::s1),
                    ),
                );
            },
            HsmEvent::F => {
                v.push(
                    Transition::make(
                        HsmState::s2,
                        None,
                        None,
                        TransitionTarget::State(HsmState::s11),
                    ),
                );
            },
            HsmEvent::TERMINATE => {
                v.push(
                    Transition::make(
                        HsmState::s,
                        None,
                        None,
                        TransitionTarget::State(HsmState::FinalPseudoState),
                    ),
                );
            },
            HsmEvent::E => {
                v.push(
                    Transition::make(
                        HsmState::s,
                        None,
                        None,
                        TransitionTarget::State(HsmState::s11),
                    ),
                );
            },
            _ => {},
        },
        HsmState::s211 => match event {
            HsmEvent::D => {
                v.push(
                    Transition::make(
                        HsmState::s211,
                        None,
                        None,
                        TransitionTarget::State(HsmState::s21),
                    ),
                );
            },
            HsmEvent::H => {
                v.push(
                    Transition::make(
                        HsmState::s211,
                        None,
                        None,
                        TransitionTarget::State(HsmState::s11),
                    ),
                );
            },
            HsmEvent::G => {
                v.push(
                    Transition::make(
                        HsmState::s21,
                        None,
                        None,
                        TransitionTarget::State(HsmState::s11),
                    ),
                );
            },
            HsmEvent::A => {
                v.push(
                    Transition::make(
                        HsmState::s21,
                        None,
                        None,
                        TransitionTarget::State(HsmState::s21),
                    ),
                );
            },
            HsmEvent::B => {
                v.push(
                    Transition::make(
                        HsmState::s21,
                        None,
                        None,
                        TransitionTarget::State(HsmState::s211),
                    ),
                );
            },
            HsmEvent::I => {
                v.push(
                    Transition::make(
                        HsmState::s2,
                        Some(HsmGuardId::isFooFalse),
                        Some(HsmActionId::setFooTrue),
                        TransitionTarget::SelfTransition,
                    ),
                );
                v.push(
                    Transition::make(
                        HsmState::s2,
                        Some(HsmGuardId::isFooTrue),
                        Some(HsmActionId::setFooFalse),
                        TransitionTarget::SelfTransition,
                    ),
                );
            },
            HsmEvent::C => {
                v.push(
                    Transition::make(
                        HsmState::s2,
                        None,
                        None,
                        TransitionTarget::State(HsmState::s1),
                    ),
                );
            },
            HsmEvent::F => {
                v.push(
                    Transition::make(
                        HsmState::s2,
                        None,
                        None,
                        TransitionTarget::State(HsmState::s11),
                    ),
                );
            },
            HsmEvent::TERMINATE => {
                v.push(
                    Transition::make(
                        HsmState::s,
                        None,
                        None,
                        TransitionTarget::State(HsmState::FinalPseudoState),
                    ),
                );
            },
            HsmEvent::E => {
                v.push(
                    Transition::make(
                        HsmState::s,
                        None,
                        None,
                        TransitionTarget::State(HsmState::s11),
                    ),
                );
            },
        },
        HsmState::InitialPseudoState => {},
        HsmState::FinalPseudoState => {},
    }
    v
}

/// Exit notifications for a chain of node indices, in chain order.
pub open spec fn exits_of(chain: Seq<int>) -> Seq<HsmRecord> {
    chain.map_values(|i: int| Record::Exit(state_at(i)))
}

/// Entry notifications for a chain of node indices, in chain order.
pub open spec fn entries_of(chain: Seq<int>) -> Seq<HsmRecord> {
    chain.map_values(|i: int| Record::Entry(state_at(i)))
}

/// What a state-changing transition exits: the chain from the current state
/// up to, excluding, the boundary, innermost first.
pub open spec fn exit_trace(cur: int, stop: int) -> Seq<HsmRecord> {
    exits_of(chain_between(hsm_parents(), cur, stop))
}

/// What a state-changing transition enters: down from just below the boundary
/// to the target, then along default children to a leaf, outermost first.
pub open spec fn entry_trace(stop: int, tgt: int) -> Seq<HsmRecord> {
    entries_of(entry_chain(hsm_parents(), hsm_children(), stop, tgt))
}

/// Everything dispatch emits when it selects candidate `k` of `cands` while
/// in `cur`: the guard calls that rejected the earlier candidates, the
/// winning guard call if the candidate has one, then — for a state change —
/// the exit chain, the actions, and the entry chain; for a self-transition
/// only the actions.
pub open spec fn taken_trace(cur: HsmState, event: HsmEvent, cands: Seq<HsmTransitionView>, k: int) -> Seq<
    HsmRecord,
> {
    guards_winning(cur, event, cands, k) + (match cands[k].target {
        TransitionTarget::SelfTransition => action_records(cur, event, cands[k].actions),
        TransitionTarget::State(t) => {
            let b = boundary(hsm_parents(), state_index(cands[k].source), state_index(t));
            exit_trace(state_index(cur), b) + action_records(cur, event, cands[k].actions)
                + entry_trace(b, state_index(t))
        },
    })
}

/// The state dispatch lands in after taking candidate `c` in `cur`: unchanged
/// for a self-transition, otherwise the default leaf under the target.
pub open spec fn taken_state(cur: HsmState, c: HsmTransitionView) -> HsmState {
    match c.target {
        TransitionTarget::SelfTransition => cur,
        TransitionTarget::State(t) => state_at(default_leaf(hsm_children(), state_index(t))),
    }
}

/// The log a self-transition leaves behind is the taken trace: guard calls,
/// then the actions, grouped either way.
proof fn lemma_taken_log_self(
    base: Seq<HsmRecord>,
    pre: HsmState,
    event: HsmEvent,
    cs: Seq<HsmTransitionView>,
    ki: int,
)
    requires
        0 <= ki < cs.len(),
        cs[ki].target is SelfTransition,
    ensures
        base + guards_winning(pre, event, cs, ki) + action_records(pre, event, cs[ki].actions)
            == base + taken_trace(pre, event, cs, ki),
{
    assert(base + guards_winning(pre, event, cs, ki) + action_records(pre, event, cs[ki].actions)
        =~= base + taken_trace(pre, event, cs, ki));
}

/// The log a state-changing transition leaves behind is the taken trace:
/// guard calls, exits, actions and entries, grouped either way.
proof fn lemma_taken_log_change(
    base: Seq<HsmRecord>,
    pre: HsmState,
    event: HsmEvent,
    cs: Seq<HsmTransitionView>,
    ki: int,
    t: HsmState,
)
    requires
        0 <= ki < cs.len(),
        cs[ki].target == TransitionTarget::State(t),
    ensures
        ({
            let b = boundary(hsm_parents(), state_index(cs[ki].source), state_index(t));
            base + guards_winning(pre, event, cs, ki) + exit_trace(state_index(pre), b)
                + action_records(pre, event, cs[ki].actions) + entry_trace(b, state_index(t))
                == base + taken_trace(pre, event, cs, ki)
        }),
{
    let b = boundary(hsm_parents(), state_index(cs[ki].source), state_index(t));
    assert(base + guards_winning(pre, event, cs, ki) + exit_trace(state_index(pre), b)
        + action_records(pre, event, cs[ki].actions) + entry_trace(b, state_index(t)) =~= base
        + taken_trace(pre, event, cs, ki));
}

/// The actions fired once as part of the initial entry sequence.
pub open spec fn initial_actions() -> Seq<HsmActionId> {
    seq![HsmActionId::setFooFalse]
}

/// Everything `start` emits: the initial actions, then the entries from the
/// root's default child down to the default leaf.
pub open spec fn start_trace() -> Seq<HsmRecord> {
    action_records(state_at(hsm_children()[0] as int), HsmEvent::A, initial_actions())
        + entry_trace(0, 0)
}

/// The leaf the machine occupies right after `start`.
pub open spec fn initial_leaf() -> HsmState {
    state_at(default_leaf(hsm_children(), 0))
}

/// The default configuration resolves to s211: root, s, s2, s21, s211.
pub proof fn lemma_initial_leaf()
    ensures
        initial_leaf() == HsmState::s211,
{
    assert(default_leaf(hsm_children(), 0) == 7) by {
        reveal_with_fuel(default_leaf, 6);
    }
}

/// Every state-changing candidate in the table lands on a leaf once its
/// target's default-child chain is resolved: s11, s211 or FinalPseudoState.
#[verifier::rlimit(50)]
#[verifier::spinoff_prover]
pub proof fn lemma_table_targets_land_on_leaves(state: HsmState, event: HsmEvent)
    ensures
        forall|i: int|
            0 <= i < hsm_table(state, event).len() ==> ((#[trigger] hsm_table(
                state,
                event,
            )[i].target) matches TransitionTarget::State(t) ==> {
                let land = state_at(default_leaf(hsm_children(), state_index(t)));
                land == HsmState::s11 || land == HsmState::s211
                    || land == HsmState::FinalPseudoState
            }),
{
    reveal(hsm_table);
    assert(default_leaf(hsm_children(), 3) == 4) by {
        reveal_with_fuel(default_leaf, 3);
    }
    assert(default_leaf(hsm_children(), 4) == 4) by {
        reveal_with_fuel(default_leaf, 2);
    }
    assert(default_leaf(hsm_children(), 5) == 7) by {
        reveal_with_fuel(default_leaf, 4);
    }
    assert(default_leaf(hsm_children(), 6) == 7) by {
        reveal_with_fuel(default_leaf, 3);
    }
    assert(default_leaf(hsm_children(), 7) == 7) by {
        reveal_with_fuel(default_leaf, 2);
    }
    assert(default_leaf(hsm_children(), 8) == 8) by {
        reveal_with_fuel(default_leaf, 2);
    }
}

/// One dispatch took candidate `k`: every candidate before it is guarded (its
/// guard was called and observed false), the log grew by exactly the taken
/// trace, and the machine moved to the candidate's destination, terminating
/// exactly when that destination is the final pseudostate.
pub open spec fn step_taken(
    pre_state: HsmState,
    event: HsmEvent,
    k: int,
    post_state: HsmState,
    post_terminated: bool,
    pre_log: Seq<HsmRecord>,
    post_log: Seq<HsmRecord>,
) -> bool {
    let cs = hsm_table(pre_state, event);
    &&& 0 <= k < cs.len()
    &&& (forall|j: int| 0 <= j < k ==> (#[trigger] cs[j].guard) is Some)
    &&& post_log == pre_log + taken_trace(pre_state, event, cs, k)
    &&& post_state == taken_state(pre_state, cs[k])
    &&& post_terminated == (post_state == HsmState::FinalPseudoState)
}

/// One dispatch discarded the event: every candidate is guarded and every
/// guard was called once, in order, and observed false; nothing else changed.
pub open spec fn step_discarded(
    pre_state: HsmState,
    event: HsmEvent,
    post_state: HsmState,
    post_terminated: bool,
    pre_log: Seq<HsmRecord>,
    post_log: Seq<HsmRecord>,
) -> bool {
    let cs = hsm_table(pre_state, event);
    &&& (forall|j: int| 0 <= j < cs.len() ==> (#[trigger] cs[j].guard) is Some)
    &&& post_log == pre_log + guards_tried(pre_state, event, cs, cs.len() as int)
    &&& post_state == pre_state
    &&& !post_terminated
}

/// What one dispatch of `event` from `pre_state` may do: take the first
/// candidate whose guard passed, or discard the event.
pub open spec fn dispatch_step(
    pre_state: HsmState,
    event: HsmEvent,
    post_state: HsmState,
    post_terminated: bool,
    pre_log: Seq<HsmRecord>,
    post_log: Seq<HsmRecord>,
) -> bool {
    ||| (exists|k: int|
        step_taken(pre_state, event, k, post_state, post_terminated, pre_log, post_log))
    ||| step_discarded(pre_state, event, post_state, post_terminated, pre_log, post_log)
}

/// Every candidate the table lists for a state names a source that is an
/// ancestor of, or equal to, that state.
#[verifier::rlimit(50)]
#[verifier::spinoff_prover]
pub proof fn lemma_table_sources_are_ancestors(state: HsmState, event: HsmEvent)
    ensures
        forall|i: int|
            0 <= i < hsm_table(state, event).len() ==> is_ancestor(
                hsm_parents(),
                state_index(#[trigger] hsm_table(state, event)[i].source),
                state_index(state),
            ),
{
    reveal(hsm_table);
    let p = hsm_parents();
    assert(is_ancestor(p, 2, 3)) by {
        reveal_with_fuel(is_ancestor, 3);
    }
    assert(is_ancestor(p, 2, 4)) by {
        reveal_with_fuel(is_ancestor, 4);
    }
    assert(is_ancestor(p, 3, 4)) by {
        reveal_with_fuel(is_ancestor, 3);
    }
    assert(is_ancestor(p, 2, 5)) by {
        reveal_with_fuel(is_ancestor, 3);
    }
    assert(is_ancestor(p, 2, 6)) by {
        reveal_with_fuel(is_ancestor, 4);
    }
    assert(is_ancestor(p, 5, 6)) by {
        reveal_with_fuel(is_ancestor, 3);
    }
    assert(is_ancestor(p, 2, 7)) by {
        reveal_with_fuel(is_ancestor, 5);
    }
    assert(is_ancestor(p, 5, 7)) by {
        reveal_with_fuel(is_ancestor, 4);
    }
    assert(is_ancestor(p, 6, 7)) by {
        reveal_with_fuel(is_ancestor, 3);
    }
}

/// Run-to-completion ordering law, applied to this machine's own table: for
/// every row and every state-changing candidate in it, the exits and entries
/// are ordered as `lemma_run_to_completion_ordering` states, with no
/// assumption left to the caller.
pub proof fn lemma_table_run_to_completion(state: HsmState, event: HsmEvent, k: int)
    requires
        0 <= k < hsm_table(state, event).len(),
        hsm_table(state, event)[k].target matches TransitionTarget::State(t),
    ensures
        ({
            let cands = hsm_table(state, event);
            let src = state_index(cands[k].source);
            let tgt = state_index(cands[k].target->State_0);
            let b = boundary(hsm_parents(), src, tgt);
            let ex = chain_between(hsm_parents(), state_index(state), b);
            let en = entry_chain(hsm_parents(), hsm_children(), b, tgt);
            &&& forall|i: int|
                0 <= i < ex.len() - 1 ==> #[trigger] ex[i + 1] == hsm_parents()[ex[i]]
            &&& forall|i: int| 0 <= i < ex.len() ==> #[trigger] ex[i] != b
            &&& forall|i: int|
                0 <= i < en.len() - 1 ==> hsm_parents()[#[trigger] en[i + 1]] == en[i]
            &&& forall|i: int| 0 <= i < en.len() ==> #[trigger] en[i] != b
        }),
{
    lemma_table_sources_are_ancestors(state, event);
    lemma_run_to_completion_ordering(state, hsm_table(state, event), k);
}

/// Run-to-completion ordering law: when dispatch takes a state-changing
/// candidate whose source is an ancestor of (or equal to) the current state —
/// which every row of this table guarantees — the exit chain runs strictly
/// innermost to outermost (each exited state is followed by its own parent)
/// and the entry chain runs strictly outermost to innermost (each entered
/// state is the parent of the next), and the boundary the transition pivots
/// on — the least common ancestor of source and target, or the source's
/// parent for a transition onto its own source — appears in neither chain.
pub proof fn lemma_run_to_completion_ordering(
    cur: HsmState,
    cands: Seq<HsmTransitionView>,
    k: int,
)
    requires
        0 <= k < cands.len(),
        cands[k].target matches TransitionTarget::State(t),
        is_ancestor(hsm_parents(), state_index(cands[k].source), state_index(cur)),
    ensures
        ({
            let src = state_index(cands[k].source);
            let tgt = state_index(cands[k].target->State_0);
            let b = boundary(hsm_parents(), src, tgt);
            let ex = chain_between(hsm_parents(), state_index(cur), b);
            let en = entry_chain(hsm_parents(), hsm_children(), b, tgt);
            &&& forall|i: int|
                0 <= i < ex.len() - 1 ==> #[trigger] ex[i + 1] == hsm_parents()[ex[i]]
            &&& forall|i: int| 0 <= i < ex.len() ==> #[trigger] ex[i] != b
            &&& forall|i: int|
                0 <= i < en.len() - 1 ==> hsm_parents()[#[trigger] en[i + 1]] == en[i]
            &&& forall|i: int| 0 <= i < en.len() ==> #[trigger] en[i] != b
        }),
{
    let p = hsm_parents();
    let c = hsm_children();
    let cs = state_index(cur);
    let src = state_index(cands[k].source);
    let tgt = state_index(cands[k].target->State_0);
    let b = boundary(p, src, tgt);
    lemma_hsm_tree_wf();
    if src == tgt {
        assert(1 <= src < 9);
        assert((p[src] as int) < src);
        assert(is_ancestor(p, p[src] as int, p[src] as int));
        assert(is_ancestor(p, p[src] as int, src));
        lemma_ancestor_transitive(p, b, src, cs);
        assert(is_ancestor(p, b, tgt));
    } else {
        lemma_lca_common_ancestor(p, src, tgt);
        lemma_ancestor_transitive(p, b, src, cs);
    }
    lemma_exit_chain_innermost_first(p, cs, b);
    lemma_entry_chain_outermost_first(p, c, b, tgt);
}

/// Self-transition purity law: a dispatch that selects a self-transition
/// appends only guard and action records to the host's log — no state is
/// exited or entered.
pub proof fn lemma_self_transition_purity(
    cur: HsmState,
    event: HsmEvent,
    cands: Seq<HsmTransitionView>,
    k: int,
)
    requires
        0 <= k < cands.len(),
        cands[k].target is SelfTransition,
    ensures
        forall|i: int|
            0 <= i < taken_trace(cur, event, cands, k).len() ==> !((#[trigger] taken_trace(
                cur,
                event,
                cands,
                k,
            )[i]) is Entry) && !(taken_trace(cur, event, cands, k)[i] is Exit),
{
    lemma_guards_tried_only_guard_records(cur, event, cands, k);
    let tr = taken_trace(cur, event, cands, k);
    let gt = guards_tried(cur, event, cands, k);
    let gw = guards_winning(cur, event, cands, k);
    let ar = action_records::<HsmState, HsmEvent, HsmGuardId, HsmActionId>(
        cur,
        event,
        cands[k].actions,
    );
    assert(tr =~= gw + ar);
    assert forall|i: int| 0 <= i < tr.len() implies !((#[trigger] tr[i]) is Entry) && !(tr[i]
        is Exit) by {
        if i < gt.len() {
            assert(tr[i] == gt[i]);
        } else if i < gw.len() {
            assert(cands[k].guard matches Some(g) && tr[i] == Record::<
                HsmState,
                HsmEvent,
                HsmGuardId,
                HsmActionId,
            >::GuardCall(cur, event, g, true));
        } else {
            assert(tr[i] == ar[i - gw.len()]);
            assert(ar[i - gw.len()] == Record::<HsmState, HsmEvent, HsmGuardId, HsmActionId>::Action(
                cur,
                event,
                cands[k].actions[i - gw.len()],
            ));
        }
    }
}

fn emit_exits<H: HsmCallbacks>(host: &mut H, chain: &Vec<usize>)
    ensures
        final(host).log() == old(host).log() + exits_of(as_ints(chain@)),
{
    let ghost base = host.log();
    let mut i: usize = 0;
    assert(exits_of(as_ints(chain@.take(0))) =~= Seq::<HsmRecord>::empty());
    assert(base + exits_of(as_ints(chain@.take(0))) =~= base);
    while i < chain.len()
        invariant
            i <= chain@.len(),
            host.log() == base + exits_of(as_ints(chain@.take(i as int))),
        decreases chain@.len() - i,
    {
        host.on_exit(state_of(chain[i]));
        proof {
            let j = i as int;
            assert(as_ints(chain@.take(j + 1)) =~= as_ints(chain@.take(j)).push(
                chain@[j] as int,
            ));
            assert(exits_of(as_ints(chain@.take(j + 1))) =~= exits_of(
                as_ints(chain@.take(j)),
            ).push(Record::Exit(state_at(chain@[j] as int))));
            assert(host.log() =~= base + exits_of(as_ints(chain@.take(j + 1))));
        }
        i = i + 1;
    }
    assert(chain@.take(chain@.len() as int) =~= chain@);
}

fn emit_entries<H: HsmCallbacks>(host: &mut H, chain: &Vec<usize>)
    ensures
        final(host).log() == old(host).log() + entries_of(as_ints(chain@)),
{
    let ghost base = host.log();
    let mut i: usize = 0;
    assert(base + entries_of(as_ints(chain@.take(0))) =~= base);
    while i < chain.len()
        invariant
            i <= chain@.len(),
            host.log() == base + entries_of(as_ints(chain@.take(i as int))),
        decreases chain@.len() - i,
    {
        host.on_entry(state_of(chain[i]));
        proof {
            let j = i as int;
            assert(as_ints(chain@.take(j + 1)) =~= as_ints(chain@.take(j)).push(
                chain@[j] as int,
            ));
            assert(entries_of(as_ints(chain@.take(j + 1))) =~= entries_of(
                as_ints(chain@.take(j)),
            ).push(Record::Entry(state_at(chain@[j] as int))));
            assert(host.log() =~= base + entries_of(as_ints(chain@.take(j + 1))));
        }
        i = i + 1;
    }
    assert(chain@.take(chain@.len() as int) =~= chain@);
}

fn emit_actions<H: HsmCallbacks>(
    host: &mut H,
    state: HsmState,
    event: HsmEvent,
    actions: &Vec<HsmActionId>,
)
    ensures
        final(host).log() == old(host).log() + action_records(state, event, actions@),
{
    let ghost base = host.log();
    let mut i: usize = 0;
    assert(base + action_records::<HsmState, HsmEvent, HsmGuardId, HsmActionId>(
        state,
        event,
        actions@.take(0),
    ) =~= base);
    while i < actions.len()
        invariant
            i <= actions@.len(),
            host.log() == base + action_records::<HsmState, HsmEvent, HsmGuardId, HsmActionId>(
                state,
                event,
                actions@.take(i as int),
            ),
        decreases actions@.len() - i,
    {
        host.action(state, event, actions[i]);
        proof {
            let j = i as int;
            assert(actions@.take(j + 1) =~= actions@.take(j).push(actions@[j]));
            assert(action_records::<HsmState, HsmEvent, HsmGuardId, HsmActionId>(
                state,
                event,
                actions@.take(j + 1),
            ) =~= action_records::<HsmState, HsmEvent, HsmGuardId, HsmActionId>(
                state,
                event,
                actions@.take(j),
            ).push(Record::Action(state, event, actions@[j])));
            assert(host.log() =~= base + action_records::<
                HsmState,
                HsmEvent,
                HsmGuardId,
                HsmActionId,
            >(state, event, actions@.take(j + 1)));
        }
        i = i + 1;
    }
    assert(actions@.take(actions@.len() as int) =~= actions@);
}

/// Tries the candidates in listed order against the host's guards and
/// returns the index of the first winner: an unguarded candidate wins
/// outright, a guarded one wins when its guard answers true. Exactly the
/// guards before and including the winner are called, each once, in order.
fn select_candidate<H: HsmCallbacks>(
    host: &mut H,
    st: HsmState,
    event: HsmEvent,
    cands: &Vec<HsmTransition>,
    Ghost(cs): Ghost<Seq<HsmTransitionView>>,
) -> (r: Option<usize>)
    requires
        cands@.len() == cs.len(),
        forall|i: int| 0 <= i < cands@.len() ==> (#[trigger] cands@[i])@ == cs[i],
    ensures
        match r {
            Some(k) => {
                &&& k < cands@.len()
                &&& (forall|j: int| 0 <= j < k ==> (#[trigger] cs[j].guard) is Some)
                &&& final(host).log() == old(host).log() + guards_winning(st, event, cs, k as int)
            },
            None => {
                &&& (forall|j: int| 0 <= j < cs.len() ==> (#[trigger] cs[j].guard) is Some)
                &&& final(host).log() == old(host).log() + guards_tried(
                    st,
                    event,
                    cs,
                    cs.len() as int,
                )
            },
        },
{
    let ghost base = host.log();
    let n = cands.len();
    let mut k: usize = 0;
    let mut selected: bool = false;
    proof {
        assert(base + guards_tried(st, event, cs, 0) =~= base);
    }
    while k < n && !selected
        invariant
            n == cands@.len(),
            cands@.len() == cs.len(),
            forall|i: int| 0 <= i < cands@.len() ==> (#[trigger] cands@[i])@ == cs[i],
            k <= n,
            forall|j: int| 0 <= j < k ==> (#[trigger] cs[j].guard) is Some,
            !selected ==> host.log() == base + guards_tried(st, event, cs, k as int),
            selected ==> k < n && host.log() == base + guards_winning(st, event, cs, k as int),
        decreases n - k + (if selected {
            0int
        } else {
            1int
        }),
    {
        let guard_opt = cands[k].guard;
        proof {
            assert(cands@[k as int]@ == cs[k as int]);
        }
        match guard_opt {
            None => {
                proof {
                    assert(guards_winning(st, event, cs, k as int) =~= guards_tried(
                        st,
                        event,
                        cs,
                        k as int,
                    ));
                }
                selected = true;
            },
            Some(g) => {
                let b = host.guard(st, event, g);
                proof {
                    if b {
                        assert(guards_winning(st, event, cs, k as int) =~= guards_tried(
                            st,
                            event,
                            cs,
                            k as int,
                        ).push(Record::GuardCall(st, event, g, true)));
                        assert(host.log() =~= base + guards_winning(st, event, cs, k as int));
                    } else {
                        assert(guards_tried(st, event, cs, k as int + 1) =~= guards_tried(
                            st,
                            event,
                            cs,
                            k as int,
                        ).push(Record::GuardCall(st, event, g, false)));
                        assert(host.log() =~= base + guards_tried(st, event, cs, k as int + 1));
                    }
                }
                if b {
                    selected = true;
                } else {
                    k = k + 1;
                }
            },
        }
    }
    if selected {
        Some(k)
    } else {
        None
    }
}

/// The exact action ids `start` fires, in order.
pub fn hsm_initial_actions() -> (v: Vec<HsmActionId>)
    ensures
        v@ == initial_actions(),
{
    let mut v: Vec<HsmActionId> = Vec::new();
    v.push(HsmActionId::setFooFalse);
    assert(v@ =~= initial_actions());
    v
}

/// A hierarchical state machine instance: the fixed state tree, the current
/// leaf, the lifecycle flags, and the host it notifies.
pub struct HsmMachine<H: HsmCallbacks> {
    callbacks: H,
    state: HsmState,
    started: bool,
    terminated: bool,
    tree: StateTree,
}

impl<H: HsmCallbacks> HsmMachine<H> {
    pub closed spec fn spec_state(&self) -> HsmState {
        self.state
    }

    pub closed spec fn spec_started(&self) -> bool {
        self.started
    }

    pub closed spec fn spec_terminated(&self) -> bool {
        self.terminated
    }

    pub closed spec fn host(&self) -> H {
        self.callbacks
    }

    /// The machine carries exactly the fixed tree of this statechart.
    pub closed spec fn wf(&self) -> bool {
        &&& self.tree.parents() == hsm_parents()
        &&& self.tree.children() == hsm_children()
    }

    /// Lifecycle invariant, established by `new` and `reset` and preserved by
    /// `start` and `dispatch`: the machine is terminated exactly when it sits
    /// in the final pseudostate, it is started exactly when it has left the
    /// initial pseudostate, and once started it only ever occupies a leaf —
    /// s11, s211 or FinalPseudoState.
    pub open spec fn lifecycle_inv(&self) -> bool {
        &&& (self.spec_terminated() <==> self.spec_state() == HsmState::FinalPseudoState)
        &&& (self.spec_started() <==> self.spec_state() != HsmState::InitialPseudoState)
        &&& (self.spec_started() ==> (self.spec_state() == HsmState::s11 || self.spec_state()
            == HsmState::s211 || self.spec_state() == HsmState::FinalPseudoState))
    }

    pub fn new(callbacks: H) -> (m: Self)
        ensures
            m.wf(),
            m.lifecycle_inv(),
            m.spec_state() == HsmState::InitialPseudoState,
            !m.spec_started(),
            !m.spec_terminated(),
            m.host() == callbacks,
    {
        let mut parent: Vec<usize> = Vec::new();
        parent.push(0);
        parent.push(0);
        parent.push(0);
        parent.push(2);
        parent.push(3);
        parent.push(2);
        parent.push(5);
        parent.push(6);
        parent.push(0);
        let mut child: Vec<usize> = Vec::new();
        child.push(2);
        child.push(1);
        child.push(5);
        child.push(4);
        child.push(4);
        child.push(6);
        child.push(7);
        child.push(7);
        child.push(8);
        assert(parent@ =~= hsm_parents());
        assert(child@ =~= hsm_children());
        let tree = StateTree::new(parent, child);
        let mut machine = HsmMachine {
            callbacks,
            state: HsmState::InitialPseudoState,
            started: false,
            terminated: false,
            tree,
        };
        machine.reset();
        machine
    }

    /// Returns the machine to the pre-start condition. The host keeps
    /// whatever it has accumulated: nothing is emitted and nothing undone.
    pub fn reset(&mut self)
        ensures
            final(self).wf() == old(self).wf(),
            final(self).lifecycle_inv(),
            final(self).spec_state() == HsmState::InitialPseudoState,
            !final(self).spec_started(),
            !final(self).spec_terminated(),
            final(self).host() == old(self).host(),
    {
        self.terminated = false;
        self.started = false;
        self.state = HsmState::InitialPseudoState;
    }

    /// Enters the default configuration: fires the initial actions, then
    /// enters every state from the root's default child down to the default
    /// leaf, outermost first. A started or terminated machine is unchanged.
    pub fn start(&mut self)
        requires
            old(self).wf(),
        ensures
            final(self).wf(),
            old(self).lifecycle_inv() ==> final(self).lifecycle_inv(),
            old(self).spec_started() || old(self).spec_terminated() ==> *final(self) == *old(
                self,
            ),
            !old(self).spec_started() && !old(self).spec_terminated() ==> ({
                &&& final(self).spec_started()
                &&& !final(self).spec_terminated()
                &&& final(self).spec_state() == initial_leaf()
                &&& final(self).host().log() == old(self).host().log() + start_trace()
            }),
    {
        proof {
            lemma_initial_leaf();
        }
        if self.terminated || self.started {
            return ;
        }
        self.started = true;
        let root_child = self.tree.root_child();
        let acts = hsm_initial_actions();
        emit_actions(&mut self.callbacks, state_of(root_child), HsmEvent::default(), &acts);
        let entries = self.tree.entry_chain_of(0, 0);
        emit_entries(&mut self.callbacks, &entries);
        let leaf = self.tree.leaf_under(0);
        self.state = state_of(leaf);
        proof {
            assert(entries_of(as_ints(entries@)) =~= entry_trace(0, 0));
            assert(self.callbacks.log() =~= old(self).callbacks.log() + start_trace());
        }
    }

    /// The current leaf state.
    pub fn state(&self) -> (r: HsmState)
        ensures
            r == self.spec_state(),
    {
        self.state
    }

    pub fn terminated(&self) -> (r: bool)
        ensures
            r == self.spec_terminated(),
    {
        self.terminated
    }

    pub fn callbacks(&self) -> (r: &H)
        ensures
            *r == self.host(),
    {
        &self.callbacks
    }

    /// Runs one event to completion. A terminated machine ignores everything.
    /// An unstarted machine first enters its default configuration, then
    /// dispatches from the default leaf. The candidates for the current state
    /// and the event are tried in listed order — a guarded one by calling the
    /// host's guard, an unguarded one winning outright — and the first winner
    /// fires its exit chain, actions and entry chain, leaving the machine in
    /// the taken state; if none wins, the event is discarded, and with no
    /// table entry at all the machine and its host are left entirely
    /// unchanged.
    #[verifier::rlimit(100)]
    #[verifier::spinoff_prover]
    pub fn dispatch(&mut self, event: HsmEvent)
        requires
            old(self).wf(),
        ensures
            final(self).wf(),
            old(self).lifecycle_inv() ==> final(self).lifecycle_inv(),
            old(self).spec_terminated() ==> *final(self) == *old(self),
            !old(self).spec_terminated() ==> final(self).spec_started(),
            !old(self).spec_terminated() ==> dispatch_step(
                if old(self).spec_started() {
                    old(self).spec_state()
                } else {
                    initial_leaf()
                },
                event,
                final(self).spec_state(),
                final(self).spec_terminated(),
                old(self).host().log() + if old(self).spec_started() {
                    Seq::<HsmRecord>::empty()
                } else {
                    start_trace()
                },
                final(self).host().log(),
            ),
            old(self).spec_started() && !old(self).spec_terminated() && hsm_table(
                old(self).spec_state(),
                event,
            ).len() == 0 ==> *final(self) == *old(self),
    {
        if self.terminated {
            return ;
        }
        if !self.started {
            self.start();
        }
        proof {
            lemma_initial_leaf();
            if old(self).spec_started() {
                assert(old(self).host().log() + Seq::<HsmRecord>::empty() =~= old(
                    self,
                ).host().log());
            }
        }
        let ghost pre = self.state;
        let ghost base = self.callbacks.log();
        on_event(self.state, event);
        let cands = hsm_candidates(self.state, event);
        let ghost cs = hsm_table(pre, event);
        let n = cands.len();
        proof {
            assert(base + guards_tried(pre, event, cs, 0) =~= base);
        }
        if n == 0 {
            proof {
                assert(step_discarded(
                    pre,
                    event,
                    self.state,
                    self.terminated,
                    base,
                    self.callbacks.log(),
                ));
            }
            return ;
        }
        let sel = select_candidate(&mut self.callbacks, self.state, event, &cands, Ghost(cs));
        let k: usize = match sel {
            None => {
                proof {
                    assert(step_discarded(
                        pre,
                        event,
                        self.state,
                        self.terminated,
                        base,
                        self.callbacks.log(),
                    ));
                }
                return ;
            },
            Some(chosen_index) => chosen_index,
        };
        let ghost ki = k as int;
        let chosen = &cands[k];
        proof {
            assert(cands@[ki]@ == cs[ki]);
        }
        match chosen.target {
            TransitionTarget::SelfTransition => {
                on_transition(self.state, self.state, event);
                emit_actions(&mut self.callbacks, self.state, event, &chosen.actions);
                proof {
                    lemma_taken_log_self(base, pre, event, cs, ki);
                    assert(self.callbacks.log() == base + taken_trace(pre, event, cs, ki));
                    assert(pre != HsmState::FinalPseudoState) by {
                        reveal(hsm_table);
                    }
                    assert(step_taken(
                        pre,
                        event,
                        ki,
                        self.state,
                        self.terminated,
                        base,
                        self.callbacks.log(),
                    ));
                }
            },
            TransitionTarget::State(t) => {
                let cur_i = index_of(self.state);
                let src_i = index_of(chosen.source);
                let tgt_i = index_of(t);
                proof {
                    lemma_hsm_tree_wf();
                }
                let stop = self.tree.boundary_of(src_i, tgt_i);
                let leaf = self.tree.leaf_under(tgt_i);
                let next = state_of(leaf);
                on_transition(self.state, next, event);
                let exits = self.tree.exit_chain(cur_i, stop);
                emit_exits(&mut self.callbacks, &exits);
                emit_actions(&mut self.callbacks, self.state, event, &chosen.actions);
                let entries = self.tree.entry_chain_of(stop, tgt_i);
                emit_entries(&mut self.callbacks, &entries);
                self.state = next;
                if next == HsmState::FinalPseudoState {
                    self.terminated = true;
                }
                proof {
                    let bb = boundary(
                        hsm_parents(),
                        state_index(cs[ki].source),
                        state_index(t),
                    );
                    assert(stop as int == bb);
                    lemma_table_targets_land_on_leaves(pre, event);
                    lemma_taken_log_change(base, pre, event, cs, ki, t);
                    assert(exits_of(as_ints(exits@)) == exit_trace(state_index(pre), bb));
                    assert(entries_of(as_ints(entries@)) == entry_trace(bb, state_index(t)));
                    assert(self.callbacks.log() == base + taken_trace(pre, event, cs, ki));
                    assert(self.state == taken_state(pre, cs[ki]));
                    assert(step_taken(
                        pre,
                        event,
                        ki,
                        self.state,
                        self.terminated,
                        base,
                        self.callbacks.log(),
                    ));
                }
            },
        }
    }

    pub fn callbacks_mut(&mut self) -> (r: &mut H)
        ensures
            *r == old(self).host(),
            final(self).host() == *final(r),
            final(self).spec_state() == old(self).spec_state(),
            final(self).spec_started() == old(self).spec_started(),
            final(self).spec_terminated() == old(self).spec_terminated(),
            final(self).wf() == old(self).wf(),
    {
        &mut self.callbacks
    }
}

/// A reference host: it records every callback in order, and drives the two
/// guards from a single flag that the two actions set, so a machine wired to
/// it behaves deterministically.
pub struct HsmRecorder {
    pub records: Vec<HsmRecord>,
    pub foo: bool,
}

impl HsmRecorder {
    pub fn new() -> (r: Self)
        ensures
            r.records@ == Seq::<HsmRecord>::empty(),
            r.foo == true,
    {
        HsmRecorder { records: Vec::new(), foo: true }
    }

    /// Forgets everything recorded so far; the flag keeps its value.
    pub fn reset_logs(&mut self)
        ensures
            final(self).records@ == Seq::<HsmRecord>::empty(),
            final(self).foo == old(self).foo,
    {
        self.records.clear();
    }
}

impl HsmCallbacks for HsmRecorder {
    open spec fn log(&self) -> Seq<HsmRecord> {
        self.records@
    }

    fn on_entry(&mut self, state: HsmState)
        ensures
            final(self).foo == old(self).foo,
    {
        self.records.push(Record::Entry(state));
    }

    fn on_exit(&mut self, state: HsmState)
        ensures
            final(self).foo == old(self).foo,
    {
        self.records.push(Record::Exit(state));
    }

    /// Answers from the flag alone: `isFooTrue` reports it, `isFooFalse`
    /// reports its negation; the flag itself is left unchanged.
    fn guard(&mut self, state: HsmState, event: HsmEvent, guard: HsmGuardId) -> (b: bool)
        ensures
            b == (if guard == HsmGuardId::isFooTrue {
                old(self).foo
            } else {
                !old(self).foo
            }),
            final(self).foo == old(self).foo,
    {
        let b = match guard {
            HsmGuardId::isFooTrue => self.foo,
            HsmGuardId::isFooFalse => !self.foo,
        };
        self.records.push(Record::GuardCall(state, event, guard, b));
        b
    }

    /// Sets the flag: `setFooTrue` raises it, `setFooFalse` clears it.
    fn action(&mut self, state: HsmState, event: HsmEvent, action: HsmActionId)
        ensures
            final(self).foo == (action == HsmActionId::setFooTrue),
    {
        self.records.push(Record::Action(state, event, action));
        match action {
            HsmActionId::setFooFalse => {
                self.foo = false;
            },
            HsmActionId::setFooTrue => {
                self.foo = true;
            },
        }
    }
}

} // verus!
