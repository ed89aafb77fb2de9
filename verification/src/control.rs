//! The control requests that the web app turns into MQTT control messages.
use crate::common::{Mode, Zone};
use crate::messages::{ControlMessage, ControlMessageType};
use vstd::prelude::*;

verus! {

/// The topic that control messages are published on.
pub const CONTROL_TOPIC: &'static str = "robot/control";

/// The body of a start request: where and how the robot should start.
#[derive(Debug, Clone, Copy, PartialEq, Eq, Structural)]
pub struct ControlRequest {
    pub zone: Zone,
    pub mode: Mode,
}

/// The control message that a start request publishes.
pub fn start_message(payload: &ControlRequest) -> (r: ControlMessage)
    ensures
        r == (ControlMessage { _type: ControlMessageType::Start, zone: payload.zone, mode: payload.mode }),
{
    ControlMessage { _type: ControlMessageType::Start, zone: payload.zone, mode: payload.mode }
}

/// The control message that a stop request publishes: zone and mode are
/// their defaults, which a stop does not read.
pub fn stop_message() -> (r: ControlMessage)
    ensures
        r == (ControlMessage { _type: ControlMessageType::Stop, zone: Zone::Red, mode: Mode::Dev }),
{
    ControlMessage { _type: ControlMessageType::Stop, zone: Zone::default(), mode: Mode::default() }
}

} // verus!
