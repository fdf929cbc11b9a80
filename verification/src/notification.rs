//! Application notifications.

use vstd::prelude::*;

use crate::signal::Signal;

verus! {

/// A discrete notification sent by the OS or the window system.
///
/// A notification carries the same information as a [`Signal`]; the two
/// names exist so that event producers and binding tables can each speak
/// the vocabulary of the interface they serve.
///
/// [`Signal`]: crate::signal::Signal
#[derive(Debug, Clone, Copy, PartialEq, Eq, Hash, Structural)]
pub enum Notification {
    /// The user or OS has requested that the application should close.
    QuitRequest,
}

impl Notification {
    /// The signal that carries this notification.
    pub open spec fn spec_as_signal(self) -> Signal {
        match self {
            Notification::QuitRequest => Signal::QuitRequest,
        }
    }

    /// Returns the signal that carries this notification.
    pub fn as_signal(&self) -> (s: Signal)
        ensures
            s == self.spec_as_signal(),
    {
        match *self {
            Notification::QuitRequest => Signal::QuitRequest,
        }
    }
}

} // verus!
