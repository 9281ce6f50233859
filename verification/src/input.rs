//! The relay between the terminal's events and the controller.
//!
//! The relay polls the terminal with a short timeout, so that it notices a
//! request to stop between two polls, and passes on what the controller acts
//! on: keys and changes of size.

use vstd::prelude::*;
use crate::messaging::{InputThreadMessage, KeyPress, TerminalThreadMessage};

verus! {

/// What a poll of the terminal brought.
#[derive(Clone, Copy, Debug, PartialEq, Eq, Structural)]
pub enum Polled {
    /// The timeout passed without an event.
    Nothing,
    /// A key event.
    Key(KeyPress),
    /// The terminal changed its size to this many columns and rows.
    Resize(u16, u16),
    /// An event of another kind.
    Other,
}

/// What the relay does after a poll.
#[derive(Clone, Copy, Debug, PartialEq, Eq, Structural)]
pub enum Relay {
    /// End the relay.
    Stop,
    /// Poll again.
    Continue,
    /// Send this to the controller, then poll again if it could be sent.
    Forward(TerminalThreadMessage),
}

/// The relay's answer to a command and a poll.
pub open spec fn relayed(command: Option<InputThreadMessage>, polled: Polled) -> Relay {
    if command is Some {
        Relay::Stop
    } else {
        match polled {
            Polled::Key(press) => Relay::Forward(TerminalThreadMessage::KeyEvent(press)),
            Polled::Resize(cols, rows) => Relay::Forward(TerminalThreadMessage::Resize(cols, rows)),
            Polled::Nothing => Relay::Continue,
            Polled::Other => Relay::Continue,
        }
    }
}

/// Decides one round of the relay. `command` is what was waiting on the
/// relay's own channel, `polled` what the terminal delivered.
pub fn relay(command: Option<InputThreadMessage>, polled: Polled) -> (r: Relay)
    ensures
        r == relayed(command, polled),
{
    match command {
        Some(InputThreadMessage::Exit) => Relay::Stop,
        None => match polled {
            Polled::Key(press) => Relay::Forward(TerminalThreadMessage::KeyEvent(press)),
            Polled::Resize(cols, rows) => Relay::Forward(TerminalThreadMessage::Resize(cols, rows)),
            Polled::Nothing => Relay::Continue,
            Polled::Other => Relay::Continue,
        },
    }
}

/// Whether the relay goes on after trying to send: it ends once the
/// controller is gone.
pub fn after_send(delivered: bool) -> (r: Relay)
    ensures
        delivered ==> r == Relay::Continue,
        !delivered ==> r == Relay::Stop,
{
    if delivered {
        Relay::Continue
    } else {
        Relay::Stop
    }
}

} // verus!
