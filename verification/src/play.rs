//! Run status of a machine execution session and its control decisions. The
//! surrounding program translates input events into calls here and performs
//! the resulting actions; the decisions themselves live in this module.

use vstd::prelude::*;

verus! {

/// Whether the execution session advances ticks, is paused, or has ended.
#[derive(Clone, Copy, PartialEq, Eq, Debug, Structural)]
pub enum Status {
    Playing,
    Paused,
    Stopped,
}

impl Status {
    /// The status after a pause/resume request: playing and paused swap; a
    /// stopped session stays stopped.
    pub open spec fn spec_toggle_pause(self) -> Status {
        match self {
            Status::Playing => Status::Paused,
            Status::Paused => Status::Playing,
            Status::Stopped => Status::Stopped,
        }
    }

    #[verifier::when_used_as_spec(spec_toggle_pause)]
    pub fn toggle_pause(self) -> (r: Status)
        ensures
            r == self.spec_toggle_pause(),
    {
        match self {
            Status::Playing => Status::Paused,
            Status::Paused => Status::Playing,
            Status::Stopped => Status::Stopped,
        }
    }

    /// A stop request ends the session from any state.
    pub fn stop(self) -> (r: Status)
        ensures
            r == Status::Stopped,
    {
        Status::Stopped
    }

    /// Only a playing session consumes elapsed time and runs ticks.
    pub open spec fn spec_is_playing(self) -> bool {
        self == Status::Playing
    }

    #[verifier::when_used_as_spec(spec_is_playing)]
    pub fn is_playing(self) -> (r: bool)
        ensures
            r == self.spec_is_playing(),
    {
        matches!(self, Status::Playing)
    }
}

} // verus!
