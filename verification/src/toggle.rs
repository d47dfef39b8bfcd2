use vstd::prelude::*;
use crate::form::{FormValues, Platform, Settings, SettingsError, read_numbers, read_settings, settings_of};

verus! {

/// What a click on the start/stop button asks for.
#[derive(Debug)]
pub enum ToggleCommand {
    /// Start the servers with these settings.
    Start(Settings),
    /// Stop the running servers.
    Stop,
    /// The form holds no valid settings; report why and change nothing.
    Report(SettingsError),
}

/// Whether the servers run, as the start/stop button sees it.
pub struct ServerToggle {
    running: bool,
}

/// The state after a command that `succeeded` or not, from state `running`:
/// the state flips only where the command went through.
pub open spec fn toggled(running: bool, succeeded: bool) -> bool {
    if succeeded {
        !running
    } else {
        running
    }
}

impl ServerToggle {
    /// Whether the servers run.
    pub closed spec fn spec_running(&self) -> bool {
        self.running
    }

    /// The state when the window opens: nothing runs.
    pub fn new() -> (res: ServerToggle)
        ensures
            !res.spec_running(),
    {
        ServerToggle { running: false }
    }

    /// Whether the servers run.
    pub fn is_running(&self) -> (res: bool)
        ensures
            res == self.spec_running(),
    {
        self.running
    }

    /// What a click on the button asks for: stop where the servers run;
    /// else start with the settings the form gives, or report why it gives
    /// none.
    pub fn command(&self, form: &FormValues) -> (res: ToggleCommand)
        ensures
            self.spec_running() ==> res is Stop,
            !self.spec_running() ==> match read_numbers(*form) {
                Err(e) => res == ToggleCommand::Report(e),
                Ok(_) => res matches ToggleCommand::Start(s) && settings_of(*form, s),
            },
    {
        if self.running {
            ToggleCommand::Stop
        } else {
            match read_settings(form) {
                Ok(s) => ToggleCommand::Start(s),
                Err(e) => ToggleCommand::Report(e),
            }
        }
    }

    /// Records how the last command ended: the state flips where it went
    /// through, and stays where it failed or only reported an error.
    pub fn complete(&mut self, succeeded: bool)
        ensures
            final(self).spec_running() == toggled(old(self).spec_running(), succeeded),
    {
        if succeeded {
            self.running = !self.running;
        }
    }

    /// The button's label: the action the next click performs.
    pub fn button_label(&self) -> (res: &'static str)
        ensures
            res@ == if self.spec_running() {
                "Stop"@
            } else {
                "Start"@
            },
    {
        if self.running {
            "Stop"
        } else {
            "Start"
        }
    }

    /// Whether closing the window first stops the servers: it never does,
    /// whether or not they run; the program ends at once.
    pub fn stops_before_exit(&self) -> (res: bool)
        ensures
            !res,
    {
        false
    }

    /// Whether the button that shows the QR code is offered: while the
    /// servers run, on every platform but Windows.
    pub fn offers_qr_code(&self, platform: Platform) -> (res: bool)
        ensures
            res == (self.spec_running() && platform != Platform::Windows),
    {
        match platform {
            Platform::Windows => false,
            _ => self.running,
        }
    }
}

/// A command that fails leaves the state as it was; one that goes through
/// flips it, so that a start and a stop that both go through come back to
/// the state before them.
pub proof fn law_toggle_round_trip(running: bool, succeeded: bool)
    ensures
        !succeeded ==> toggled(running, succeeded) == running,
        succeeded ==> toggled(running, succeeded) != running,
        toggled(toggled(running, true), true) == running,
{
}

/// A server that is told to shut down when the servers stop.
#[derive(Debug, Clone, Copy, PartialEq, Eq, Structural)]
pub enum ShutdownTarget {
    WebServer,
    WebsocketServer,
}

/// The next step of stopping the servers.
#[derive(Debug, Clone, Copy, PartialEq, Eq, Structural)]
pub enum StopAction {
    /// Send the shutdown message to this server.
    Send(ShutdownTarget),
    /// Stopping is over; the servers stopped where this holds, and the
    /// state must not change where it does not.
    Finish(bool),
}

/// The first step of stopping: the web server is told first where there is
/// a channel to it, then the websocket server; with neither there is nothing
/// to send and stopping goes through.
pub fn first_stop_action(has_web_channel: bool, has_websocket_channel: bool) -> (res: StopAction)
    ensures
        has_web_channel ==> res == StopAction::Send(ShutdownTarget::WebServer),
        !has_web_channel && has_websocket_channel ==> res == StopAction::Send(
            ShutdownTarget::WebsocketServer,
        ),
        !has_web_channel && !has_websocket_channel ==> res == StopAction::Finish(true),
{
    if has_web_channel {
        StopAction::Send(ShutdownTarget::WebServer)
    } else if has_websocket_channel {
        StopAction::Send(ShutdownTarget::WebsocketServer)
    } else {
        StopAction::Finish(true)
    }
}

/// The step after a shutdown message to `current` was `sent` or not: a
/// message that could not be sent ends the stop without stopping; after the
/// web server the websocket server is told, where there is a channel to it;
/// after the last message the stop goes through.
pub fn next_stop_action(current: ShutdownTarget, has_websocket_channel: bool, sent: bool) -> (res:
    StopAction)
    ensures
        !sent ==> res == StopAction::Finish(false),
        sent && current == ShutdownTarget::WebServer && has_websocket_channel ==> res
            == StopAction::Send(ShutdownTarget::WebsocketServer),
        sent && (current == ShutdownTarget::WebsocketServer || !has_websocket_channel) ==> res
            == StopAction::Finish(true),
{
    if !sent {
        StopAction::Finish(false)
    } else {
        match current {
            ShutdownTarget::WebServer => if has_websocket_channel {
                StopAction::Send(ShutdownTarget::WebsocketServer)
            } else {
                StopAction::Finish(true)
            },
            ShutdownTarget::WebsocketServer => StopAction::Finish(true),
        }
    }
}

} // verus!
