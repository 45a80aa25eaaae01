use state_surf::hsm::{
    on_event, on_transition, HsmActionId, HsmEvent, HsmGuardId, HsmMachine, HsmRecord,
    HsmRecorder, HsmState,
};
use state_surf::table::Record;

fn log_of(machine: &HsmMachine<HsmRecorder>) -> Vec<HsmRecord> {
    machine.callbacks().records.clone()
}

#[test]
fn terminal_absorption() {
    let mut machine = HsmMachine::new(HsmRecorder::new());
    machine.start();
    machine.dispatch(HsmEvent::TERMINATE);
    assert!(machine.terminated());
    assert_eq!(machine.state(), HsmState::FinalPseudoState);
    machine.callbacks_mut().reset_logs();

    let all_events = [
        HsmEvent::A,
        HsmEvent::B,
        HsmEvent::C,
        HsmEvent::D,
        HsmEvent::E,
        HsmEvent::F,
        HsmEvent::G,
        HsmEvent::H,
        HsmEvent::I,
        HsmEvent::TERMINATE,
    ];
    for event in all_events.iter() {
        machine.dispatch(*event);
        assert!(machine.terminated());
        assert_eq!(machine.state(), HsmState::FinalPseudoState);
        assert!(log_of(&machine).is_empty());
    }
}

#[test]
fn termination_exits_every_active_ancestor_once() {
    let mut machine = HsmMachine::new(HsmRecorder::new());
    machine.start();
    // Move to the s1 branch so the exit chain differs from the default one.
    machine.dispatch(HsmEvent::G);
    assert_eq!(machine.state(), HsmState::s11);
    machine.callbacks_mut().reset_logs();

    machine.dispatch(HsmEvent::TERMINATE);
    assert!(machine.terminated());
    assert_eq!(
        log_of(&machine),
        vec![
            Record::Exit(HsmState::s11),
            Record::Exit(HsmState::s1),
            Record::Exit(HsmState::s),
            Record::Entry(HsmState::FinalPseudoState),
        ]
    );
}

#[test]
fn actions_fire_between_exit_and_entry_phases() {
    let mut machine = HsmMachine::new(HsmRecorder::new());
    machine.start();
    machine.dispatch(HsmEvent::G);
    assert_eq!(machine.state(), HsmState::s11);
    assert!(!machine.callbacks().foo);
    machine.callbacks_mut().reset_logs();

    // Both guards run in listed order; the second passes; the action sits
    // between the innermost-first exits and the outermost-first entries.
    machine.dispatch(HsmEvent::D);
    assert_eq!(machine.state(), HsmState::s11);
    assert_eq!(
        log_of(&machine),
        vec![
            Record::GuardCall(HsmState::s11, HsmEvent::D, HsmGuardId::isFooTrue, false),
            Record::GuardCall(HsmState::s11, HsmEvent::D, HsmGuardId::isFooFalse, true),
            Record::Exit(HsmState::s11),
            Record::Exit(HsmState::s1),
            Record::Action(HsmState::s11, HsmEvent::D, HsmActionId::setFooTrue),
            Record::Entry(HsmState::s1),
            Record::Entry(HsmState::s11),
        ]
    );
    assert!(machine.callbacks().foo);
}

#[test]
fn self_transition_emits_no_exit_or_entry() {
    let mut machine = HsmMachine::new(HsmRecorder::new());
    machine.start();
    assert_eq!(machine.state(), HsmState::s211);
    machine.callbacks_mut().reset_logs();

    // foo is false after start, so the first guarded internal candidate wins.
    machine.dispatch(HsmEvent::I);
    assert_eq!(machine.state(), HsmState::s211);
    assert_eq!(
        log_of(&machine),
        vec![
            Record::GuardCall(HsmState::s211, HsmEvent::I, HsmGuardId::isFooFalse, true),
            Record::Action(HsmState::s211, HsmEvent::I, HsmActionId::setFooTrue),
        ]
    );
}

#[test]
fn leaf_self_loop_still_toggles_the_leaf() {
    let mut machine = HsmMachine::new(HsmRecorder::new());
    machine.start();
    assert_eq!(machine.state(), HsmState::s211);
    machine.callbacks_mut().reset_logs();

    // D at s211 pivots just below s21: the leaf is exited and re-entered,
    // unlike an internal transition.
    machine.dispatch(HsmEvent::D);
    assert_eq!(machine.state(), HsmState::s211);
    assert_eq!(
        log_of(&machine),
        vec![Record::Exit(HsmState::s211), Record::Entry(HsmState::s211)]
    );
}

#[test]
fn hsm_dispatch_auto_starts() {
    let mut machine = HsmMachine::new(HsmRecorder::new());
    machine.dispatch(HsmEvent::G);
    assert_eq!(machine.state(), HsmState::s11);
    assert_eq!(
        log_of(&machine),
        vec![
            Record::Action(HsmState::s, HsmEvent::A, HsmActionId::setFooFalse),
            Record::Entry(HsmState::s),
            Record::Entry(HsmState::s2),
            Record::Entry(HsmState::s21),
            Record::Entry(HsmState::s211),
            Record::Exit(HsmState::s211),
            Record::Exit(HsmState::s21),
            Record::Exit(HsmState::s2),
            Record::Entry(HsmState::s1),
            Record::Entry(HsmState::s11),
        ]
    );
}

#[test]
fn hsm_reset_returns_to_initial_and_keeps_host_records() {
    let mut machine = HsmMachine::new(HsmRecorder::new());
    machine.start();
    let before = log_of(&machine);
    assert!(!before.is_empty());
    machine.reset();
    assert_eq!(machine.state(), HsmState::InitialPseudoState);
    assert!(!machine.terminated());
    assert_eq!(log_of(&machine), before);

    // A reset machine can be started again and replays the entry sequence.
    machine.callbacks_mut().reset_logs();
    machine.start();
    assert_eq!(machine.state(), HsmState::s211);
    assert_eq!(log_of(&machine), before);
}

#[test]
fn reset_after_termination_clears_the_terminal_state() {
    let mut machine = HsmMachine::new(HsmRecorder::new());
    machine.start();
    machine.dispatch(HsmEvent::TERMINATE);
    assert!(machine.terminated());
    machine.reset();
    assert!(!machine.terminated());
    assert_eq!(machine.state(), HsmState::InitialPseudoState);
    machine.callbacks_mut().reset_logs();
    machine.start();
    assert_eq!(machine.state(), HsmState::s211);
    assert!(!machine.terminated());
}

#[test]
fn hsm_default_event_and_observation_points() {
    assert_eq!(HsmEvent::default(), HsmEvent::A);
    on_event(HsmState::s211, HsmEvent::G);
    on_transition(HsmState::s211, HsmState::s11, HsmEvent::G);
}
