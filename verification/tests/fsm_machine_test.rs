use state_surf::fsm::{
    on_event, on_transition, FsmActionId, FsmEvent, FsmGuardId, FsmMachine, FsmRecord,
    FsmRecorder, FsmState,
};
use state_surf::table::Record;

fn log_of(machine: &FsmMachine<FsmRecorder>) -> Vec<FsmRecord> {
    machine.hooks().records.clone()
}

#[test]
fn fsm_initial_condition() {
    let machine = FsmMachine::new(FsmRecorder::new());
    assert_eq!(machine.state(), FsmState::InitialPseudoState);
    assert!(!machine.terminated());
    assert!(machine.hooks().records.is_empty());
}

#[test]
fn fsm_start_enters_first_state() {
    let mut machine = FsmMachine::new(FsmRecorder::new());
    machine.start();
    assert_eq!(machine.state(), FsmState::State1);
    assert!(!machine.terminated());
    assert_eq!(log_of(&machine), vec![Record::Entry(FsmState::State1)]);

    // A second start is a no-op.
    machine.start();
    assert_eq!(machine.state(), FsmState::State1);
    assert_eq!(log_of(&machine), vec![Record::Entry(FsmState::State1)]);
}

#[test]
fn fsm_walks_the_whole_chain() {
    let mut machine = FsmMachine::new(FsmRecorder::new());
    machine.start();
    machine.hooks_mut().reset_logs();

    machine.dispatch(FsmEvent::eventA);
    assert_eq!(machine.state(), FsmState::State2);
    assert_eq!(
        log_of(&machine),
        vec![Record::Exit(FsmState::State1), Record::Entry(FsmState::State2)]
    );
    machine.hooks_mut().reset_logs();

    // A failing guard swallows the event after the guard call.
    machine.hooks_mut().permit = false;
    machine.dispatch(FsmEvent::eventB);
    assert_eq!(machine.state(), FsmState::State2);
    assert_eq!(
        log_of(&machine),
        vec![Record::GuardCall(FsmState::State2, FsmEvent::eventB, FsmGuardId::guardA, false)]
    );
    machine.hooks_mut().reset_logs();

    machine.hooks_mut().permit = true;
    machine.dispatch(FsmEvent::eventB);
    assert_eq!(machine.state(), FsmState::State3);
    assert_eq!(
        log_of(&machine),
        vec![
            Record::GuardCall(FsmState::State2, FsmEvent::eventB, FsmGuardId::guardA, true),
            Record::Exit(FsmState::State2),
            Record::Entry(FsmState::State3),
        ]
    );
    machine.hooks_mut().reset_logs();

    // The action fires between the exit phase and the entry phase.
    machine.dispatch(FsmEvent::eventC);
    assert_eq!(machine.state(), FsmState::State4);
    assert_eq!(
        log_of(&machine),
        vec![
            Record::Exit(FsmState::State3),
            Record::Action(FsmState::State3, FsmEvent::eventC, FsmActionId::actionA),
            Record::Entry(FsmState::State4),
        ]
    );
    machine.hooks_mut().reset_logs();

    machine.dispatch(FsmEvent::eventD);
    assert_eq!(machine.state(), FsmState::State5);
    assert_eq!(
        log_of(&machine),
        vec![
            Record::GuardCall(FsmState::State4, FsmEvent::eventD, FsmGuardId::guardB, true),
            Record::Exit(FsmState::State4),
            Record::Action(FsmState::State4, FsmEvent::eventD, FsmActionId::actionB),
            Record::Entry(FsmState::State5),
        ]
    );
    machine.hooks_mut().reset_logs();

    // A self-transition fires no exit and no entry.
    machine.dispatch(FsmEvent::init);
    assert_eq!(machine.state(), FsmState::State5);
    assert!(log_of(&machine).is_empty());

    // An event with no table entry for the current state is discarded.
    machine.dispatch(FsmEvent::eventFoo);
    assert_eq!(machine.state(), FsmState::State5);
    assert!(log_of(&machine).is_empty());
    assert!(!machine.terminated());
}

#[test]
fn fsm_dispatch_auto_starts() {
    let mut machine = FsmMachine::new(FsmRecorder::new());
    machine.dispatch(FsmEvent::eventA);
    assert_eq!(machine.state(), FsmState::State2);
    assert_eq!(
        log_of(&machine),
        vec![
            Record::Entry(FsmState::State1),
            Record::Exit(FsmState::State1),
            Record::Entry(FsmState::State2),
        ]
    );
}

#[test]
fn fsm_reset_returns_to_initial_and_keeps_host_records() {
    let mut machine = FsmMachine::new(FsmRecorder::new());
    machine.start();
    machine.dispatch(FsmEvent::eventA);
    let before = log_of(&machine);
    machine.reset();
    assert_eq!(machine.state(), FsmState::InitialPseudoState);
    assert!(!machine.terminated());
    assert_eq!(log_of(&machine), before);
    machine.start();
    assert_eq!(machine.state(), FsmState::State1);
}

#[test]
fn fsm_default_event_and_observation_points() {
    assert_eq!(FsmEvent::default(), FsmEvent::eventA);
    on_event(FsmState::State1, FsmEvent::eventA);
    on_transition(FsmState::State1, FsmState::State2, FsmEvent::eventA);
}
