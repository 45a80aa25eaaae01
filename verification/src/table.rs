use vstd::prelude::*;

verus! {

/// A transition's destination: a named state, or the source state itself
/// with no exit or entry (an internal transition).
#[derive(Clone, Copy, PartialEq, Eq, Debug)]
pub enum TransitionTarget<S> {
    State(S),
    SelfTransition,
}

/// One callback made to the host, in the order dispatch made it. Guard and
/// action records carry the context the host was handed — the pre-transition
/// state and the dispatched event — along with the guard's observed result.
#[derive(Clone, Copy, PartialEq, Eq, Debug)]
pub enum Record<S, E, G, A> {
    Entry(S),
    Exit(S),
    GuardCall(S, E, G, bool),
    Action(S, E, A),
}

/// One candidate transition: the state that defines it (an ancestor of, or
/// equal to, every state it is listed under), an optional guard, the actions
/// to fire, and the target.
pub struct Transition<S, G, A> {
    pub source: S,
    pub guard: Option<G>,
    pub actions: Vec<A>,
    pub target: TransitionTarget<S>,
}

/// The mathematical shape of a `Transition`, with the actions as a sequence.
pub struct TransitionView<S, G, A> {
    pub source: S,
    pub guard: Option<G>,
    pub actions: Seq<A>,
    pub target: TransitionTarget<S>,
}

impl<S, G, A> View for Transition<S, G, A> {
    type V = TransitionView<S, G, A>;

    open spec fn view(&self) -> TransitionView<S, G, A> {
        TransitionView {
            source: self.source,
            guard: self.guard,
            actions: self.actions@,
            target: self.target,
        }
    }
}

impl<S: Copy, G: Copy, A: Copy> Transition<S, G, A> {
    /// A candidate with at most one action, which is how the machines here
    /// state their tables.
    pub fn make(source: S, guard: Option<G>, action: Option<A>, target: TransitionTarget<S>) -> (t:
        Self)
        ensures
            t@ == (TransitionView {
                source,
                guard,
                actions: opt_actions(action),
                target,
            }),
    {
        let mut actions: Vec<A> = Vec::new();
        match action {
            Some(a) => {
                actions.push(a);
                assert(actions@ =~= opt_actions(action));
            },
            None => {
                assert(actions@ =~= opt_actions(action));
            },
        }
        Transition { source, guard, actions, target }
    }
}

pub open spec fn opt_actions<A>(action: Option<A>) -> Seq<A> {
    match action {
        Some(a) => seq![a],
        None => Seq::empty(),
    }
}

/// The guard calls a dispatch of `ev` in `st` makes while rejecting the first
/// `k` candidates: one call per guarded candidate among them, in listed
/// order, each observed false.
pub open spec fn guards_tried<S, E, G, A>(
    st: S,
    ev: E,
    cands: Seq<TransitionView<S, G, A>>,
    k: int,
) -> Seq<Record<S, E, G, A>>
    decreases k,
{
    if k <= 0 {
        Seq::empty()
    } else {
        guards_tried(st, ev, cands, k - 1) + match cands[k - 1].guard {
            Some(g) => seq![Record::GuardCall(st, ev, g, false)],
            None => Seq::empty(),
        }
    }
}

/// The guard calls a dispatch of `ev` in `st` makes up to and including
/// selecting candidate `k`: the rejected guards before it, then its own
/// guard observed true, if it has one.
pub open spec fn guards_winning<S, E, G, A>(
    st: S,
    ev: E,
    cands: Seq<TransitionView<S, G, A>>,
    k: int,
) -> Seq<Record<S, E, G, A>> {
    guards_tried(st, ev, cands, k) + match cands[k].guard {
        Some(g) => seq![Record::GuardCall(st, ev, g, true)],
        None => Seq::empty(),
    }
}

/// Action notifications, each carrying the pre-transition state and the
/// dispatched event as context.
pub open spec fn action_records<S, E, G, A>(st: S, ev: E, actions: Seq<A>) -> Seq<
    Record<S, E, G, A>,
> {
    actions.map_values(|a: A| Record::Action(st, ev, a))
}

/// Guard short-circuit law: when every candidate before the winner carries a
/// guard, the rejected prefix of the trace holds exactly one guard call per
/// earlier candidate, in listed order, each observed false — so each guard
/// before the winner is evaluated exactly once, and none after it at all.
pub proof fn lemma_guard_short_circuit<S, E, G, A>(
    st: S,
    ev: E,
    cands: Seq<TransitionView<S, G, A>>,
    k: int,
)
    requires
        0 <= k <= cands.len(),
        forall|j: int| 0 <= j < k ==> (#[trigger] cands[j].guard) is Some,
    ensures
        guards_tried(st, ev, cands, k).len() == k,
        forall|j: int|
            0 <= j < k ==> guards_tried(st, ev, cands, k)[j] == Record::<S, E, G, A>::GuardCall(
                st,
                ev,
                cands[j].guard->0,
                false,
            ),
    decreases k,
{
    if k > 0 {
        lemma_guard_short_circuit(st, ev, cands, k - 1);
    }
}

/// Every record a guard-selection phase emits is a guard call: no entry, exit
/// or action is observed while candidates are being tried.
pub proof fn lemma_guards_tried_only_guard_records<S, E, G, A>(
    st: S,
    ev: E,
    cands: Seq<TransitionView<S, G, A>>,
    k: int,
)
    ensures
        forall|i: int|
            0 <= i < guards_tried(st, ev, cands, k).len() ==> (#[trigger] guards_tried(
                st,
                ev,
                cands,
                k,
            )[i]) matches Record::GuardCall(s2, e2, g, b),
    decreases k,
{
    if k > 0 {
        lemma_guards_tried_only_guard_records(st, ev, cands, k - 1);
    }
}

} // verus!
