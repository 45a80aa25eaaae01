use state_surf::hsm::{
    HsmActionId, HsmEvent, HsmGuardId, HsmMachine, HsmRecorder, HsmState,
};
use state_surf::table::Record;

fn entries_logged(rec: &HsmRecorder) -> Vec<HsmState> {
    let mut v = Vec::new();
    for r in rec.records.iter() {
        if let Record::Entry(state) = r {
            v.push(*state);
        }
    }
    v
}

fn exits_logged(rec: &HsmRecorder) -> Vec<HsmState> {
    let mut v = Vec::new();
    for r in rec.records.iter() {
        if let Record::Exit(state) = r {
            v.push(*state);
        }
    }
    v
}

fn actions_logged(rec: &HsmRecorder) -> Vec<HsmActionId> {
    let mut v = Vec::new();
    for r in rec.records.iter() {
        if let Record::Action(_, _, action) = r {
            v.push(*action);
        }
    }
    v
}

fn guards_logged(rec: &HsmRecorder) -> Vec<HsmGuardId> {
    let mut v = Vec::new();
    for r in rec.records.iter() {
        if let Record::GuardCall(_, _, guard, _) = r {
            v.push(*guard);
        }
    }
    v
}

fn dispatch_and_expect(
    machine: &mut HsmMachine<HsmRecorder>,
    event: HsmEvent,
    expected_exits: &[HsmState],
    expected_entries: &[HsmState],
    expected_actions: &[HsmActionId],
    expected_guards: &[HsmGuardId],
    expected_state: HsmState,
) {
    machine.dispatch(event);
    {
        let callbacks = machine.callbacks();
        assert_eq!(exits_logged(callbacks).as_slice(), expected_exits);
        assert_eq!(entries_logged(callbacks).as_slice(), expected_entries);
        assert_eq!(actions_logged(callbacks).as_slice(), expected_actions);
        assert_eq!(guards_logged(callbacks).as_slice(), expected_guards);
    }
    assert_eq!(machine.state(), expected_state);
    assert!(!machine.terminated());
    machine.callbacks_mut().reset_logs();
}

#[test]
fn drives_through_lifecycle() {
    let callbacks = HsmRecorder::new();
    let mut machine = HsmMachine::new(callbacks);

    {
        let callbacks_view = machine.callbacks();
        assert_eq!(machine.state(), HsmState::InitialPseudoState);
        assert!(!machine.terminated());
        assert!(entries_logged(callbacks_view).is_empty());
        assert!(actions_logged(callbacks_view).is_empty());
        assert!(guards_logged(callbacks_view).is_empty());
    }

    machine.start();
    {
        let callbacks_view = machine.callbacks();
        let expected_initial_entries =
            vec![HsmState::s, HsmState::s2, HsmState::s21, HsmState::s211];
        assert_eq!(entries_logged(callbacks_view), expected_initial_entries);
        assert!(exits_logged(callbacks_view).is_empty());
        let expected_initial_actions = vec![HsmActionId::setFooFalse];
        assert_eq!(actions_logged(callbacks_view), expected_initial_actions);
        assert!(guards_logged(callbacks_view).is_empty());
        assert!(!callbacks_view.foo);
    }
    assert!(!machine.terminated());
    assert_eq!(machine.state(), HsmState::s211);
    machine.callbacks_mut().reset_logs();

    dispatch_and_expect(
        &mut machine,
        HsmEvent::G,
        &[HsmState::s211, HsmState::s21, HsmState::s2],
        &[HsmState::s1, HsmState::s11],
        &[],
        &[],
        HsmState::s11,
    );

    dispatch_and_expect(&mut machine, HsmEvent::I, &[], &[], &[], &[], HsmState::s11);

    dispatch_and_expect(
        &mut machine,
        HsmEvent::A,
        &[HsmState::s11, HsmState::s1],
        &[HsmState::s1, HsmState::s11],
        &[],
        &[],
        HsmState::s11,
    );

    dispatch_and_expect(
        &mut machine,
        HsmEvent::D,
        &[HsmState::s11, HsmState::s1],
        &[HsmState::s1, HsmState::s11],
        &[HsmActionId::setFooTrue],
        &[HsmGuardId::isFooTrue, HsmGuardId::isFooFalse],
        HsmState::s11,
    );

    dispatch_and_expect(
        &mut machine,
        HsmEvent::D,
        &[HsmState::s11],
        &[HsmState::s11],
        &[HsmActionId::setFooFalse],
        &[HsmGuardId::isFooTrue],
        HsmState::s11,
    );

    dispatch_and_expect(
        &mut machine,
        HsmEvent::C,
        &[HsmState::s11, HsmState::s1],
        &[HsmState::s2, HsmState::s21, HsmState::s211],
        &[],
        &[],
        HsmState::s211,
    );

    dispatch_and_expect(
        &mut machine,
        HsmEvent::E,
        &[HsmState::s211, HsmState::s21, HsmState::s2],
        &[HsmState::s1, HsmState::s11],
        &[],
        &[],
        HsmState::s11,
    );

    dispatch_and_expect(
        &mut machine,
        HsmEvent::E,
        &[HsmState::s11, HsmState::s1],
        &[HsmState::s1, HsmState::s11],
        &[],
        &[],
        HsmState::s11,
    );

    dispatch_and_expect(
        &mut machine,
        HsmEvent::G,
        &[HsmState::s11, HsmState::s1],
        &[HsmState::s2, HsmState::s21, HsmState::s211],
        &[],
        &[],
        HsmState::s211,
    );

    dispatch_and_expect(
        &mut machine,
        HsmEvent::I,
        &[],
        &[],
        &[HsmActionId::setFooTrue],
        &[HsmGuardId::isFooFalse],
        HsmState::s211,
    );

    dispatch_and_expect(
        &mut machine,
        HsmEvent::I,
        &[],
        &[],
        &[HsmActionId::setFooFalse],
        &[HsmGuardId::isFooFalse, HsmGuardId::isFooTrue],
        HsmState::s211,
    );

    machine.dispatch(HsmEvent::TERMINATE);
    assert!(machine.terminated());
    assert_eq!(machine.state(), HsmState::FinalPseudoState);
    {
        let callbacks_view = machine.callbacks();
        assert_eq!(
            exits_logged(callbacks_view),
            vec![HsmState::s211, HsmState::s21, HsmState::s2, HsmState::s]
        );
        assert_eq!(entries_logged(callbacks_view), vec![HsmState::FinalPseudoState]);
    }
}
