//! Changes to an input state, and the capability events use to describe
//! the changes they contain.

use vstd::prelude::*;

use crate::description::{InputDesc, KeyDesc};
use crate::signal::Signal;

verus! {

/// The state transition of a button.
#[derive(Debug, Clone, Copy, Hash, PartialEq, Eq, Structural)]
pub enum ButtonChange {
    /// The button has just been pressed.
    Pressed,
    /// The button has just been released.
    Released,
    /// The button is held, and the input manager is firing a repeat event.
    Repeated,
}

/// The representation of a change to the input state.
#[derive(Debug, Clone, Copy, PartialEq, Eq, Structural)]
pub enum InputChange {
    /// A keyboard button was changed.
    Key(KeyDesc, ButtonChange),
    /// A signal was sent.
    Signal(Signal),
}

impl InputChange {
    /// The descriptor of the input that this change pertains to.
    pub open spec fn spec_input(self) -> InputDesc {
        match self {
            InputChange::Key(desc, _) => InputDesc::Key(desc),
            InputChange::Signal(signal) => InputDesc::Signal(signal),
        }
    }

    /// Returns the input that this change pertains to.
    /// Ex: the button with the virtual key 'a', if this is about a change
    /// to this button (the button is pressed, released, etc.).
    pub fn input(&self) -> (d: InputDesc)
        ensures
            d == self.spec_input(),
    {
        match *self {
            InputChange::Key(desc, _) => InputDesc::Key(desc),
            InputChange::Signal(signal) => InputDesc::Signal(signal),
        }
    }
}

impl From<Signal> for InputChange {
    fn from(signal: Signal) -> (c: InputChange)
        ensures
            c == InputChange::Signal(signal),
    {
        InputChange::Signal(signal)
    }
}

impl vstd::std_specs::convert::FromSpecImpl<Signal> for InputChange {
    open spec fn obeys_from_spec() -> bool {
        true
    }

    open spec fn from_spec(signal: Signal) -> InputChange {
        InputChange::Signal(signal)
    }
}

/// A capability that lets an input event describe which changes it
/// contains, as a list in the order the event carries them.
///
/// An event that cannot be interpreted must return an empty list rather
/// than fail.
pub trait DescribeInputChanges: Sized {
    /// Returns the changes this event represents, in order.
    fn describe_changes(&self) -> Vec<InputChange>;
}

impl DescribeInputChanges for InputChange {
    fn describe_changes(&self) -> (changes: Vec<InputChange>)
        ensures
            changes@ == seq![*self],
    {
        let mut changes: Vec<InputChange> = Vec::new();
        changes.push(*self);
        changes
    }
}

} // verus!
