//! The run-state machine of the user-code runner.
use crate::common::{status_channel, status_for, Mode, RunState, Zone};
use crate::config::Config;
use crate::control::ControlRequest;
use crate::messages::{ControlMessage, ControlMessageType, RunStatusMessage};
use vstd::prelude::*;

verus! {

/// What the runner is asked to do.
#[derive(Debug, Clone, Copy, PartialEq, Eq, Structural)]
pub enum StateEvent {
    /// Move to the first state, but only from the second.
    Transition(RunState, RunState),
    /// Remember the mode and zone of the next run.
    SetTarget(Mode, Zone),
}

/// The announcement of a new state on the runner's status channel.
#[derive(Debug)]
pub struct StatusUpdate {
    pub topic: String,
    pub message: RunStatusMessage,
}

/// The runner as a value: its configuration, its run state and the mode and
/// zone of the next run.
pub struct RunnerModel {
    pub config: Config,
    pub state: RunState,
    pub target_mode: Mode,
    pub target_zone: Zone,
}

/// The runner after one event.
pub open spec fn next_model(m: RunnerModel, ev: StateEvent) -> RunnerModel {
    match ev {
        StateEvent::Transition(next, prev) => if m.state == prev {
            RunnerModel { state: next, ..m }
        } else {
            m
        },
        StateEvent::SetTarget(mode, zone) => RunnerModel { target_mode: mode, target_zone: zone, ..m },
    }
}

/// The state that the runner announces after one event, if it announces one:
/// it does after each transition that it takes.
pub open spec fn announced(m: RunnerModel, ev: StateEvent) -> Option<RunState> {
    match ev {
        StateEvent::Transition(next, prev) => if m.state == prev {
            Some(next)
        } else {
            None
        },
        StateEvent::SetTarget(_, _) => None,
    }
}

/// The runner after a series of events, handled in order.
pub open spec fn after_events(m: RunnerModel, evs: Seq<StateEvent>) -> RunnerModel
    decreases evs.len(),
{
    if evs.len() == 0 {
        m
    } else {
        next_model(after_events(m, evs.drop_last()), evs.last())
    }
}

/// The events that a control message raises.
pub open spec fn control_event_seq(msg: ControlMessage) -> Seq<StateEvent> {
    match msg._type {
        ControlMessageType::Start => seq![
            StateEvent::SetTarget(msg.mode, msg.zone),
            StateEvent::Transition(RunState::Running, RunState::Ready),
        ],
        ControlMessageType::Stop => seq![StateEvent::Transition(RunState::PostRun, RunState::Running)],
        ControlMessageType::Reset => Seq::empty(),
    }
}

/// The events that a control message raises: a start sets the target mode
/// and zone, then moves a ready robot to running; a stop moves a running
/// robot to post-run; a reset raises none.
pub fn control_events(msg: &ControlMessage) -> (r: Vec<StateEvent>)
    ensures
        r@ == control_event_seq(*msg),
        r@ == match msg._type {
            ControlMessageType::Start => seq![
                StateEvent::SetTarget(msg.mode, msg.zone),
                StateEvent::Transition(RunState::Running, RunState::Ready),
            ],
            ControlMessageType::Stop => seq![StateEvent::Transition(RunState::PostRun, RunState::Running)],
            ControlMessageType::Reset => Seq::<StateEvent>::empty(),
        },
{
    let mut evs: Vec<StateEvent> = Vec::new();
    match msg._type {
        ControlMessageType::Start => {
            evs.push(StateEvent::SetTarget(msg.mode, msg.zone));
            evs.push(StateEvent::Transition(RunState::Running, RunState::Ready));
        },
        ControlMessageType::Stop => {
            evs.push(StateEvent::Transition(RunState::PostRun, RunState::Running));
        },
        ControlMessageType::Reset => {},
    }
    assert(evs@ =~= control_event_seq(*msg));
    evs
}

/// The runner of user code: its configuration, its run state and the mode and
/// zone of the next run.
pub struct Runner {
    config: Config,
    state: RunState,
    target_mode: Mode,
    target_zone: Zone,
}

impl View for Runner {
    type V = RunnerModel;

    open spec fn view(&self) -> RunnerModel {
        RunnerModel {
            config: self.spec_config(),
            state: self.spec_state(),
            target_mode: self.spec_target_mode(),
            target_zone: self.spec_target_zone(),
        }
    }
}

impl Runner {
    pub closed spec fn spec_config(&self) -> Config {
        self.config
    }

    pub closed spec fn spec_state(&self) -> RunState {
        self.state
    }

    pub closed spec fn spec_target_mode(&self) -> Mode {
        self.target_mode
    }

    pub closed spec fn spec_target_zone(&self) -> Zone {
        self.target_zone
    }

    /// The service id that names the runner's status channel.
    pub open spec fn service_id(&self) -> Seq<char> {
        self@.config.run.service_id@
    }

    /// A runner that keeps `config`, in the `Init` state, with the default
    /// mode and zone as target.
    pub fn new(config: Config) -> (r: Runner)
        ensures
            r@ == (RunnerModel { config, state: RunState::Init, target_mode: Mode::Dev, target_zone: Zone::Red }),
    {
        Runner { config, state: RunState::Init, target_mode: Mode::default(), target_zone: Zone::default() }
    }

    /// Handles one event. A transition whose required state is not the
    /// current one is refused and changes nothing; one that is taken returns
    /// the announcement of the new state on the runner's status channel.
    pub fn handle_event(&mut self, ev: StateEvent) -> (r: Option<StatusUpdate>)
        ensures
            final(self)@ == next_model(old(self)@, ev),
            match ev {
                StateEvent::Transition(next, prev) => if old(self)@.state == prev {
                    &&& final(self)@ == (RunnerModel { state: next, ..old(self)@ })
                    &&& r matches Some(u) && u.message.state == next && u.topic@ == old(self)@.config.run.service_id@
                        + "/status"@
                } else {
                    &&& final(self)@ == old(self)@
                    &&& r is None
                },
                StateEvent::SetTarget(mode, zone) => {
                    &&& final(self)@ == (RunnerModel { target_mode: mode, target_zone: zone, ..old(self)@ })
                    &&& r is None
                },
            },
            match r {
                Some(u) => {
                    &&& announced(old(self)@, ev) == Some(u.message.state)
                    &&& u.topic@ == status_channel(old(self).service_id())
                },
                None => announced(old(self)@, ev) is None,
            },
    {
        match ev {
            StateEvent::Transition(next, prev) => {
                if self.state != prev {
                    return None;
                }
                self.state = next;
                let topic = status_for(self.config.run.service_id.as_str());
                Some(StatusUpdate { topic, message: RunStatusMessage { state: next } })
            },
            StateEvent::SetTarget(mode, zone) => {
                self.target_mode = mode;
                self.target_zone = zone;
                None
            },
        }
    }

    /// The current run state.
    pub fn state(&self) -> (r: RunState)
        ensures
            r == self@.state,
    {
        self.state
    }

    /// The mode of the next run.
    pub fn target_mode(&self) -> (r: Mode)
        ensures
            r == self@.target_mode,
    {
        self.target_mode
    }

    /// The zone of the next run.
    pub fn target_zone(&self) -> (r: Zone)
        ensures
            r == self@.target_zone,
    {
        self.target_zone
    }

    /// The runner's configuration.
    pub fn config(&self) -> (r: &Config)
        ensures
            *r == self@.config,
    {
        &self.config
    }
}

/// What a control message does to the runner: a start always takes the new
/// target mode and zone, and moves the runner to `Running` exactly when it was
/// `Ready`; a stop moves it to `PostRun` exactly when it was `Running` and
/// changes nothing else; a reset changes nothing.
pub proof fn lemma_control_message_effect(m: RunnerModel, msg: ControlMessage)
    ensures
        msg._type == ControlMessageType::Start ==> {
            let after = after_events(m, control_event_seq(msg));
            &&& m.state == RunState::Ready ==> after == (RunnerModel {
                state: RunState::Running,
                target_mode: msg.mode,
                target_zone: msg.zone,
                ..m
            })
            &&& m.state != RunState::Ready ==> after == (RunnerModel { target_mode: msg.mode, target_zone: msg.zone, ..m })
        },
        msg._type == ControlMessageType::Stop ==> {
            let after = after_events(m, control_event_seq(msg));
            &&& m.state == RunState::Running ==> after == (RunnerModel { state: RunState::PostRun, ..m })
            &&& m.state != RunState::Running ==> after == m
        },
        msg._type == ControlMessageType::Reset ==> after_events(m, control_event_seq(msg)) == m,
{
    let evs = control_event_seq(msg);
    match msg._type {
        ControlMessageType::Start => {
            let e1 = evs.drop_last();
            assert(e1.drop_last() =~= Seq::<StateEvent>::empty());
            assert(e1.last() == evs[0]);
            assert(after_events(m, e1.drop_last()) == m);
            assert(after_events(m, e1) == next_model(m, evs[0]));
            assert(evs.last() == evs[1]);
            assert(after_events(m, evs) == next_model(after_events(m, e1), evs[1]));
        },
        ControlMessageType::Stop => {
            assert(evs.drop_last() =~= Seq::<StateEvent>::empty());
            assert(after_events(m, evs.drop_last()) == m);
            assert(after_events(m, evs) == next_model(m, evs[0]));
        },
        ControlMessageType::Reset => {},
    }
}

/// A start request posted to the web app starts a ready runner in the mode
/// and zone it asks for; a stop request ends a running one.
pub proof fn lemma_requests_drive_runner(m: RunnerModel, payload: ControlRequest)
    ensures
        m.state == RunState::Ready ==> after_events(
            m,
            control_event_seq(ControlMessage { _type: ControlMessageType::Start, zone: payload.zone, mode: payload.mode }),
        ) == (RunnerModel { state: RunState::Running, target_mode: payload.mode, target_zone: payload.zone, ..m }),
        m.state == RunState::Running ==> after_events(
            m,
            control_event_seq(ControlMessage { _type: ControlMessageType::Stop, zone: Zone::Red, mode: Mode::Dev }),
        ) == (RunnerModel { state: RunState::PostRun, ..m }),
{
    lemma_control_message_effect(m, ControlMessage { _type: ControlMessageType::Start, zone: payload.zone, mode: payload.mode });
    lemma_control_message_effect(m, ControlMessage { _type: ControlMessageType::Stop, zone: Zone::Red, mode: Mode::Dev });
}

/// A transition is taken exactly from its required state: from any other
/// state it changes nothing and announces nothing, whatever the states; from
/// the required state it moves to the new state, announces it, and changes
/// nothing else. A `SetTarget` only sets the targets and announces nothing.
pub proof fn lemma_transition_guard(m: RunnerModel, next: RunState, prev: RunState, mode: Mode, zone: Zone)
    ensures
        m.state != prev ==> next_model(m, StateEvent::Transition(next, prev)) == m,
        m.state != prev ==> announced(m, StateEvent::Transition(next, prev)) is None,
        m.state == prev ==> next_model(m, StateEvent::Transition(next, prev)) == (RunnerModel { state: next, ..m }),
        m.state == prev ==> announced(m, StateEvent::Transition(next, prev)) == Some(next),
        next_model(m, StateEvent::SetTarget(mode, zone)) == (RunnerModel { target_mode: mode, target_zone: zone, ..m }),
        announced(m, StateEvent::SetTarget(mode, zone)) is None,
{
}

/// Only a transition that is taken changes the run state, and only a
/// `SetTarget` changes the targets; a state is announced exactly when a
/// transition is taken, and it is the new state.
pub proof fn lemma_event_changes(m: RunnerModel, ev: StateEvent)
    ensures
        next_model(m, ev).state != m.state ==> announced(m, ev) == Some(next_model(m, ev).state),
        announced(m, ev) matches Some(s) ==> next_model(m, ev).state == s,
        (next_model(m, ev).target_mode != m.target_mode || next_model(m, ev).target_zone != m.target_zone)
            ==> ev is SetTarget,
        ev is SetTarget ==> next_model(m, ev).state == m.state,
{
}

/// The states announced while a series of events is handled, in order.
pub open spec fn announcements(m: RunnerModel, evs: Seq<StateEvent>) -> Seq<RunState>
    decreases evs.len(),
{
    if evs.len() == 0 {
        Seq::empty()
    } else {
        let earlier = announcements(m, evs.drop_last());
        match announced(after_events(m, evs.drop_last()), evs.last()) {
            Some(s) => earlier.push(s),
            None => earlier,
        }
    }
}

/// The runner after a series of control messages, each handled through the
/// events it raises, in order.
pub open spec fn after_control_messages(m: RunnerModel, msgs: Seq<ControlMessage>) -> RunnerModel
    decreases msgs.len(),
{
    if msgs.len() == 0 {
        m
    } else {
        after_events(after_control_messages(m, msgs.drop_last()), control_event_seq(msgs.last()))
    }
}

/// The states announced while a series of control messages is handled, in
/// order.
pub open spec fn control_announcements(m: RunnerModel, msgs: Seq<ControlMessage>) -> Seq<RunState>
    decreases msgs.len(),
{
    if msgs.len() == 0 {
        Seq::empty()
    } else {
        control_announcements(m, msgs.drop_last()) + announcements(
            after_control_messages(m, msgs.drop_last()),
            control_event_seq(msgs.last()),
        )
    }
}

/// The run state can go from `from` to `to` through control messages: it
/// stays, or goes forward from `Ready` to `Running` to `PostRun`.
pub open spec fn reachable_by_control(from: RunState, to: RunState) -> bool {
    ||| from == to
    ||| from == RunState::Ready && (to == RunState::Running || to == RunState::PostRun)
    ||| from == RunState::Running && to == RunState::PostRun
}

/// What one control message announces: a start announces `Running` exactly
/// when the runner was `Ready`, a stop announces `PostRun` exactly when it
/// was `Running`, a reset announces nothing.
pub proof fn lemma_control_message_announcements(m: RunnerModel, msg: ControlMessage)
    ensures
        announcements(m, control_event_seq(msg)) == match msg._type {
            ControlMessageType::Start => if m.state == RunState::Ready {
                seq![RunState::Running]
            } else {
                Seq::<RunState>::empty()
            },
            ControlMessageType::Stop => if m.state == RunState::Running {
                seq![RunState::PostRun]
            } else {
                Seq::<RunState>::empty()
            },
            ControlMessageType::Reset => Seq::<RunState>::empty(),
        },
{
    let evs = control_event_seq(msg);
    match msg._type {
        ControlMessageType::Start => {
            let e1 = evs.drop_last();
            assert(e1.drop_last() =~= Seq::<StateEvent>::empty());
            assert(e1.last() == evs[0]);
            assert(after_events(m, e1.drop_last()) == m);
            assert(announcements(m, e1.drop_last()) == Seq::<RunState>::empty());
            assert(after_events(m, e1) == next_model(m, evs[0]));
            assert(announcements(m, e1) == Seq::<RunState>::empty());
            assert(evs.last() == evs[1]);
            if m.state == RunState::Ready {
                assert(announcements(m, evs) =~= seq![RunState::Running]);
            }
        },
        ControlMessageType::Stop => {
            assert(evs.drop_last() =~= Seq::<StateEvent>::empty());
            assert(after_events(m, evs.drop_last()) == m);
            assert(announcements(m, evs.drop_last()) == Seq::<RunState>::empty());
            if m.state == RunState::Running {
                assert(announcements(m, evs) =~= seq![RunState::PostRun]);
            }
        },
        ControlMessageType::Reset => {},
    }
}

/// Over any series of control messages the runner keeps its configuration;
/// its state only moves forward from `Ready` to `Running` to `PostRun`; the
/// only states it announces are `Running` and `PostRun`; and a runner in
/// `Init` (as a new one is) or in `PostRun` stays there and announces
/// nothing, whatever control messages arrive.
pub proof fn lemma_control_messages_drive_state(m: RunnerModel, msgs: Seq<ControlMessage>)
    ensures
        after_control_messages(m, msgs).config == m.config,
        reachable_by_control(m.state, after_control_messages(m, msgs).state),
        forall|i: int|
            0 <= i < control_announcements(m, msgs).len() ==> #[trigger] control_announcements(m, msgs)[i]
                == RunState::Running || control_announcements(m, msgs)[i] == RunState::PostRun,
        (m.state == RunState::Init || m.state == RunState::PostRun) ==> {
            &&& after_control_messages(m, msgs).state == m.state
            &&& control_announcements(m, msgs).len() == 0
        },
    decreases msgs.len(),
{
    if msgs.len() > 0 {
        let init = msgs.drop_last();
        let msg = msgs.last();
        lemma_control_messages_drive_state(m, init);
        let mid = after_control_messages(m, init);
        lemma_control_message_effect(mid, msg);
        lemma_control_message_announcements(mid, msg);
        let earlier = control_announcements(m, init);
        let now = announcements(mid, control_event_seq(msg));
        assert forall|i: int| 0 <= i < (earlier + now).len() implies #[trigger] (earlier + now)[i] == RunState::Running
            || (earlier + now)[i] == RunState::PostRun by {
            if i < earlier.len() {
                assert((earlier + now)[i] == earlier[i]);
            } else {
                assert((earlier + now)[i] == now[i - earlier.len()]);
            }
        }
    }
}

} // verus!
