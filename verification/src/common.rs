use vstd::prelude::*;

verus! {

/// State of the user-code run cycle.
#[derive(Debug, Clone, Copy, PartialEq, Eq, Structural)]
pub enum RunState {
    Init,
    Ready,
    Running,
    PostRun,
}

/// Starting zone of the robot in the arena.
#[derive(Debug, Clone, Copy, PartialEq, Eq, Structural)]
pub enum Zone {
    Red,
    Yellow,
    Blue,
    Green,
}

/// Whether the robot runs in development or competition mode.
#[derive(Debug, Clone, Copy, PartialEq, Eq, Structural)]
pub enum Mode {
    Dev,
    Comp,
}

impl Default for RunState {
    fn default() -> (r: RunState)
        ensures
            r == RunState::Init,
    {
        RunState::Init
    }
}

impl Default for Zone {
    fn default() -> (r: Zone)
        ensures
            r == Zone::Red,
    {
        Zone::Red
    }
}

impl Default for Mode {
    fn default() -> (r: Mode)
        ensures
            r == Mode::Dev,
    {
        Mode::Dev
    }
}

/// The status channel of a service: its id followed by `/status`.
pub open spec fn status_channel(service_id: Seq<char>) -> Seq<char> {
    service_id + "/status"@
}

/// Generate a status channel name from a service ID.
pub fn status_for(service_id: &str) -> (r: String)
    ensures
        r@ == status_channel(service_id@),
        r@ == service_id@ + "/status"@,
{
    let s: String = service_id.to_owned();
    s.concat("/status")
}

} // verus!
