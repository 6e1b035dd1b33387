//! The desktop service manager's model: service states and UI events.

use vstd::prelude::*;
use vstd::string::*;

verus! {

/// The state of the installed services.
#[derive(Clone, Copy, Debug, PartialEq, Eq, Structural)]
pub enum DesktopServiceState {
    Paused,
    Started,
    Stopped,
    Unknown,
}

/// Events between the service manager and its window.
#[derive(Debug)]
pub enum Event {
    BrowserAction(String),
    BrowserInit,
    BrowserUpdate((String, String)),
    BrowserRender(String),
    FileChange(String),
    ViewAction(String),
    ViewInit,
    ViewUpdate(String),
    ViewRender(String),
    ViewRenderAppExit,
    ViewRenderServiceState(DesktopServiceState),
}

/// A service manager of the platform.
pub trait IDesktopService {
    fn start(&mut self);

    fn stop(&mut self);

    fn restart(&mut self);

    fn pause(&mut self);

    fn check(&mut self) -> DesktopServiceState;
}

/// The Windows service manager's last known state.
pub struct WindowsDesktopService {
    pub state: DesktopServiceState,
}

/// The state that a status text of the Windows service manager shows:
/// `Running` is started, anything else stopped.
pub open spec fn state_of_status(status: Seq<char>) -> DesktopServiceState {
    if status == "Running"@ {
        DesktopServiceState::Started
    } else {
        DesktopServiceState::Stopped
    }
}

impl WindowsDesktopService {
    pub fn new() -> (r: WindowsDesktopService)
        ensures
            r.state == DesktopServiceState::Stopped,
    {
        WindowsDesktopService { state: DesktopServiceState::Stopped }
    }

    /// Records the state that `status` (the service's current state, as the
    /// service manager writes it) shows, and returns it.
    pub fn check_status(&mut self, status: &str) -> (r: DesktopServiceState)
        ensures
            r == state_of_status(status@),
            final(self).state == r,
    {
        self.state = if crate::text::is_word(status, "Running") {
            DesktopServiceState::Started
        } else {
            DesktopServiceState::Stopped
        };
        self.state
    }
}

} // verus!
