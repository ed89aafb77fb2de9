use shepherd::common::{Mode, RunState, Zone};
use shepherd::config::Config;
use shepherd::control::{start_message, stop_message, ControlRequest, CONTROL_TOPIC};
use shepherd::messages::{ControlMessage, ControlMessageType};
use shepherd::runner::{control_events, Runner, StateEvent};

fn runner_in(state: RunState) -> Runner {
    let mut r = Runner::new(Config::default());
    // walk the runner to the wanted state through taken transitions
    let path = [RunState::Ready, RunState::Running, RunState::PostRun];
    let mut cur = RunState::Init;
    for next in path {
        if cur == state {
            break;
        }
        assert!(r.handle_event(StateEvent::Transition(next, cur)).is_some());
        cur = next;
    }
    assert_eq!(r.state(), state);
    r
}

#[test]
fn new_runner_is_init_with_default_targets() {
    let r = Runner::new(Config::default());
    assert_eq!(r.state(), RunState::Init);
    assert_eq!(r.target_mode(), Mode::Dev);
    assert_eq!(r.target_zone(), Zone::Red);
    assert_eq!(r.config().run.service_id, "shepherd-run");
}

#[test]
fn taken_transition_announces_on_status_channel() {
    let mut r = Runner::new(Config::default());
    let u = r.handle_event(StateEvent::Transition(RunState::Ready, RunState::Init)).unwrap();
    assert_eq!(u.topic, "shepherd-run/status");
    assert_eq!(u.message.state, RunState::Ready);
    assert_eq!(r.state(), RunState::Ready);
}

#[test]
fn refused_transition_changes_nothing() {
    let mut r = Runner::new(Config::default());
    assert!(r.handle_event(StateEvent::Transition(RunState::Running, RunState::Ready)).is_none());
    assert_eq!(r.state(), RunState::Init);
    assert_eq!(r.target_mode(), Mode::Dev);
    assert_eq!(r.target_zone(), Zone::Red);
}

#[test]
fn status_channel_follows_configured_service_id() {
    let mut c = Config::default();
    c.run.service_id = "robot-7".to_string();
    let mut r = Runner::new(c);
    let u = r.handle_event(StateEvent::Transition(RunState::Ready, RunState::Init)).unwrap();
    assert_eq!(u.topic, "robot-7/status");
}

#[test]
fn set_target_keeps_state() {
    let mut r = runner_in(RunState::Running);
    assert!(r.handle_event(StateEvent::SetTarget(Mode::Comp, Zone::Blue)).is_none());
    assert_eq!(r.state(), RunState::Running);
    assert_eq!(r.target_mode(), Mode::Comp);
    assert_eq!(r.target_zone(), Zone::Blue);
}

#[test]
fn self_transition_is_announced() {
    let mut r = runner_in(RunState::Ready);
    let u = r.handle_event(StateEvent::Transition(RunState::Ready, RunState::Ready)).unwrap();
    assert_eq!(u.message.state, RunState::Ready);
    assert_eq!(r.state(), RunState::Ready);
}

#[test]
fn control_events_of_each_message() {
    let start = ControlMessage { _type: ControlMessageType::Start, zone: Zone::Green, mode: Mode::Comp };
    assert_eq!(
        control_events(&start),
        vec![
            StateEvent::SetTarget(Mode::Comp, Zone::Green),
            StateEvent::Transition(RunState::Running, RunState::Ready)
        ]
    );
    let stop = ControlMessage { _type: ControlMessageType::Stop, zone: Zone::Red, mode: Mode::Dev };
    assert_eq!(control_events(&stop), vec![StateEvent::Transition(RunState::PostRun, RunState::Running)]);
    let reset = ControlMessage { _type: ControlMessageType::Reset, zone: Zone::Red, mode: Mode::Dev };
    assert!(control_events(&reset).is_empty());
}

fn apply(r: &mut Runner, msg: &ControlMessage) -> usize {
    let mut announced = 0;
    for ev in control_events(msg) {
        if r.handle_event(ev).is_some() {
            announced += 1;
        }
    }
    announced
}

#[test]
fn start_request_starts_ready_runner() {
    let mut r = runner_in(RunState::Ready);
    let msg = start_message(&ControlRequest { zone: Zone::Yellow, mode: Mode::Comp });
    assert_eq!(apply(&mut r, &msg), 1);
    assert_eq!(r.state(), RunState::Running);
    assert_eq!(r.target_mode(), Mode::Comp);
    assert_eq!(r.target_zone(), Zone::Yellow);
}

#[test]
fn start_outside_ready_only_sets_target() {
    let mut r = Runner::new(Config::default());
    let msg = start_message(&ControlRequest { zone: Zone::Blue, mode: Mode::Comp });
    assert_eq!(apply(&mut r, &msg), 0);
    assert_eq!(r.state(), RunState::Init);
    assert_eq!(r.target_mode(), Mode::Comp);
    assert_eq!(r.target_zone(), Zone::Blue);
}

#[test]
fn stop_request_ends_running_runner() {
    let mut r = runner_in(RunState::Running);
    assert_eq!(apply(&mut r, &stop_message()), 1);
    assert_eq!(r.state(), RunState::PostRun);
}

#[test]
fn stop_outside_running_changes_nothing() {
    let mut r = runner_in(RunState::Ready);
    assert_eq!(apply(&mut r, &stop_message()), 0);
    assert_eq!(r.state(), RunState::Ready);
    assert_eq!(r.target_mode(), Mode::Dev);
}

#[test]
fn reset_changes_nothing() {
    let mut r = runner_in(RunState::Running);
    let msg = ControlMessage { _type: ControlMessageType::Reset, zone: Zone::Green, mode: Mode::Comp };
    assert_eq!(apply(&mut r, &msg), 0);
    assert_eq!(r.state(), RunState::Running);
    assert_eq!(r.target_zone(), Zone::Red);
}

#[test]
fn control_messages_built_from_requests() {
    let m = start_message(&ControlRequest { zone: Zone::Green, mode: Mode::Comp });
    assert_eq!(m, ControlMessage { _type: ControlMessageType::Start, zone: Zone::Green, mode: Mode::Comp });
    assert_eq!(
        stop_message(),
        ControlMessage { _type: ControlMessageType::Stop, zone: Zone::Red, mode: Mode::Dev }
    );
    assert_eq!(CONTROL_TOPIC, "robot/control");
}

#[test]
fn runner_keeps_its_configuration() {
    let mut c = Config::default();
    c.mqtt.broker = "broker.arena".to_string();
    c.mqtt.port = 1884;
    c.app.port = 9000;
    let mut r = Runner::new(c);
    assert_eq!(r.config().mqtt.broker, "broker.arena");
    assert_eq!(r.config().mqtt.port, 1884);
    assert_eq!(r.config().app.port, 9000);
    r.handle_event(StateEvent::Transition(RunState::Ready, RunState::Init));
    r.handle_event(StateEvent::SetTarget(Mode::Comp, Zone::Blue));
    assert_eq!(r.config().mqtt.broker, "broker.arena");
    assert_eq!(r.config().mqtt.port, 1884);
    assert_eq!(r.config().run.service_id, "shepherd-run");
}

#[test]
fn control_messages_never_move_a_new_runner() {
    let mut r = Runner::new(Config::default());
    let msgs = [
        start_message(&ControlRequest { zone: Zone::Blue, mode: Mode::Comp }),
        stop_message(),
        ControlMessage { _type: ControlMessageType::Reset, zone: Zone::Red, mode: Mode::Dev },
        start_message(&ControlRequest { zone: Zone::Green, mode: Mode::Dev }),
    ];
    for m in &msgs {
        assert_eq!(apply(&mut r, m), 0);
        assert_eq!(r.state(), RunState::Init);
    }
    assert_eq!(r.target_zone(), Zone::Green);
}

#[test]
fn control_messages_move_a_ready_runner_forward_only() {
    let mut r = runner_in(RunState::Ready);
    let start = start_message(&ControlRequest { zone: Zone::Blue, mode: Mode::Comp });
    assert_eq!(apply(&mut r, &start), 1);
    assert_eq!(apply(&mut r, &start), 0);
    assert_eq!(r.state(), RunState::Running);
    assert_eq!(apply(&mut r, &stop_message()), 1);
    assert_eq!(apply(&mut r, &start), 0);
    assert_eq!(apply(&mut r, &stop_message()), 0);
    assert_eq!(r.state(), RunState::PostRun);
}
