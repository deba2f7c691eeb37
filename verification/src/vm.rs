//! Actions a virtual machine can be asked to perform.

use vstd::prelude::*;

verus! {

/// The actions of the generic action call.
#[derive(Debug, Clone, Copy, PartialEq, Eq, Structural)]
pub enum Action {
    Terminate,
    TerminateHard,
    Undeploy,
    UndeployHard,
    PowerOff,
    PowerOffHard,
    Reboot,
    RebootHard,
    Hold,
    Release,
    Stop,
    Suspend,
    Resume,
    Resched,
    UnResched,
}

/// The wire name of each action.
pub open spec fn action_name(a: Action) -> Seq<char> {
    match a {
        Action::Terminate => "terminate"@,
        Action::TerminateHard => "terminate-hard"@,
        Action::Undeploy => "undeploy"@,
        Action::UndeployHard => "undeploy-hard"@,
        Action::PowerOff => "poweroff"@,
        Action::PowerOffHard => "poweroff-hard"@,
        Action::Reboot => "reboot"@,
        Action::RebootHard => "reboot-hard"@,
        Action::Hold => "hold"@,
        Action::Release => "release"@,
        Action::Stop => "stop"@,
        Action::Suspend => "suspend"@,
        Action::Resume => "resume"@,
        Action::Resched => "resched"@,
        Action::UnResched => "unresched"@,
    }
}

impl Action {
    /// The name the action call sends for this action.
    pub fn as_str(&self) -> (r: &'static str)
        ensures
            r@ == action_name(*self),
    {
        match self {
            Action::Terminate => "terminate",
            Action::TerminateHard => "terminate-hard",
            Action::Undeploy => "undeploy",
            Action::UndeployHard => "undeploy-hard",
            Action::PowerOff => "poweroff",
            Action::PowerOffHard => "poweroff-hard",
            Action::Reboot => "reboot",
            Action::RebootHard => "reboot-hard",
            Action::Hold => "hold",
            Action::Release => "release",
            Action::Stop => "stop",
            Action::Suspend => "suspend",
            Action::Resume => "resume",
            Action::Resched => "resched",
            Action::UnResched => "unresched",
        }
    }
}

} // verus!
