//! The messages that the services exchange over MQTT.
use crate::common::{Mode, RunState, Zone};
use vstd::prelude::*;

verus! {

/// What a control message asks of the robot.
#[derive(Debug, Clone, Copy, PartialEq, Eq, Structural)]
pub enum ControlMessageType {
    Start,
    Stop,
    Reset,
}

/// A request to start, stop or reset the robot, with the mode and zone it
/// should start in.
#[derive(Debug, Clone, Copy, PartialEq, Eq, Structural)]
pub struct ControlMessage {
    pub _type: ControlMessageType,
    pub zone: Zone,
    pub mode: Mode,
}

/// The run state that a runner announces on its status channel.
#[derive(Debug, Clone, Copy, PartialEq, Eq, Structural)]
pub struct RunStatusMessage {
    pub state: RunState,
}

} // verus!
