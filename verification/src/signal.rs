//! Application signals.

use vstd::prelude::*;

verus! {

/// A simple one-shot signal sent by the OS or the window system.
#[derive(Debug, Clone, Copy, PartialEq, Eq, Hash, Structural)]
pub enum Signal {
    /// The user or OS has requested that the application should close.
    QuitRequest,
}

} // verus!
