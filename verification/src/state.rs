//! The per-frame state of bound actions: button values, signal flags, and
//! the container that holds one slot per action.

use vstd::prelude::*;

use crate::change::ButtonChange;

verus! {

/// The value of a button-type input in a single game frame.
///
/// The button can be both pressed and released in the same frame, so code
/// that needs to know whether the button is still down at the end of the
/// frame must check the `held` member, which tracks level state rather
/// than edge state.
#[derive(Debug, Clone, Copy, PartialEq, Eq, Structural)]
pub struct ButtonValue {
    /// Whether the button was pressed down in this frame.
    pub pressed: bool,
    /// Whether the button is held down in this frame.
    pub held: bool,
    /// Whether the button was released in this frame.
    pub released: bool,
    /// How many repeat notifications were received this frame (the button
    /// was held down for so long that the OS started sending repeats).
    pub repeats: u8,
}

/// What one button change does to a button value.
///
/// A press sets the `pressed` edge flag and raises the level state, a
/// release sets the `released` edge flag and lowers the level state, and a
/// repeat bumps the saturating repeat counter. Every rule leaves the other
/// members untouched, so a press and a release observed in the same frame
/// leave both edge flags set.
pub open spec fn button_transition(v: ButtonValue, change: ButtonChange) -> ButtonValue {
    match change {
        ButtonChange::Pressed => ButtonValue { pressed: true, held: true, ..v },
        ButtonChange::Released => ButtonValue { released: true, held: false, ..v },
        ButtonChange::Repeated => ButtonValue {
            repeats: if v.repeats < 255 { (v.repeats + 1) as u8 } else { 255u8 },
            ..v
        },
    }
}

impl ButtonValue {
    /// The zeroed value every button slot starts from.
    pub open spec fn zeroed() -> ButtonValue {
        ButtonValue { pressed: false, held: false, released: false, repeats: 0 }
    }

    /// The value of this button at the start of the next frame: the edge
    /// flags and the repeat count are cleared, the level state persists.
    pub open spec fn advanced(self) -> ButtonValue {
        ButtonValue { pressed: false, held: self.held, released: false, repeats: 0 }
    }

    /// Creates a new button value description.
    pub fn new() -> (v: ButtonValue)
        ensures
            v == ButtonValue::zeroed(),
    {
        ButtonValue { pressed: false, released: false, held: false, repeats: 0 }
    }

    /// Applies a single button change to this value.
    pub fn apply_change(&mut self, change: ButtonChange)
        ensures
            *final(self) == button_transition(*old(self), change),
    {
        match change {
            ButtonChange::Pressed => {
                self.pressed = true;
                self.held = true;
            }
            ButtonChange::Released => {
                self.released = true;
                self.held = false;
            }
            ButtonChange::Repeated => {
                if self.repeats < 255 {
                    self.repeats = self.repeats + 1;
                }
            }
        }
    }
}

impl Default for ButtonValue {
    /// The zeroed value: nothing pressed, held, released or repeated.
    fn default() -> (v: ButtonValue)
        ensures
            v == ButtonValue::zeroed(),
    {
        ButtonValue::new()
    }
}

/// An input value that knows how to change its state in the next game
/// frame. Transient (edge) state is cleared; level state persists.
pub trait AdvanceFrame {
    /// Advance this value to the next frame.
    fn advance_frame(&mut self);
}

impl AdvanceFrame for ButtonValue {
    /// Advances the state of the button to the next frame.
    fn advance_frame(&mut self)
        ensures
            *final(self) == old(self).advanced(),
    {
        self.pressed = false;
        self.released = false;
        self.repeats = 0;
    }
}

impl AdvanceFrame for bool {
    /// A one-shot flag is simply cleared at each frame boundary.
    fn advance_frame(&mut self)
        ensures
            *final(self) == false,
    {
        *self = false;
    }
}

/// Bounds for a type that can be used to identify inputs in an input
/// state: identifiers are small copyable values that can be compared.
pub trait InputIndex: Sized + Copy {
    /// Compares two identifiers; the answer decides equality of the values.
    fn eq_id(&self, other: &Self) -> (r: bool)
        ensures
            r == (self == other),
    ;
}

impl InputIndex for usize {
    fn eq_id(&self, other: &usize) -> (r: bool)
        ensures
            r == (self == other),
    {
        *self == *other
    }
}

/// Describes a container that holds the state of every action and can
/// have that state updated by an input map.
///
/// Each button-style action is identified by a `ButtonId` and owns a
/// [`ButtonValue`] slot; each signal-style action is identified by a
/// `SignalId` and owns a one-shot `bool` slot.
pub trait InputState: AdvanceFrame {
    /// Identifies a button-style input.
    type ButtonId: InputIndex;

    /// Identifies a signal-style input.
    type SignalId: InputIndex;

    /// Whether the container has a button slot for this identifier.
    spec fn valid_button(&self, id: Self::ButtonId) -> bool;

    /// Whether the container has a signal slot for this identifier.
    spec fn valid_signal(&self, id: Self::SignalId) -> bool;

    /// The value held by this button slot.
    spec fn button_of(&self, id: Self::ButtonId) -> ButtonValue;

    /// The value held by this signal slot.
    spec fn signal_of(&self, id: Self::SignalId) -> bool;

    /// Returns the state of the button.
    fn get_button<'a>(&'a mut self, id: &Self::ButtonId) -> (b: &'a mut ButtonValue)
        requires
            old(self).valid_button(*id),
        ensures
            *b == old(self).button_of(*id),
            final(self).button_of(*id) == *final(b),
            forall|o: Self::ButtonId|
                o != *id && old(self).valid_button(o)
                    ==> final(self).button_of(o) == old(self).button_of(o),
            forall|o: Self::SignalId|
                old(self).valid_signal(o) ==> final(self).signal_of(o) == old(self).signal_of(o),
            forall|o: Self::ButtonId| final(self).valid_button(o) == old(self).valid_button(o),
            forall|o: Self::SignalId| final(self).valid_signal(o) == old(self).valid_signal(o),
    ;

    /// Returns the state of the signal.
    fn get_signal<'a>(&'a mut self, id: &Self::SignalId) -> (s: &'a mut bool)
        requires
            old(self).valid_signal(*id),
        ensures
            *s == old(self).signal_of(*id),
            final(self).signal_of(*id) == *final(s),
            forall|o: Self::SignalId|
                o != *id && old(self).valid_signal(o)
                    ==> final(self).signal_of(o) == old(self).signal_of(o),
            forall|o: Self::ButtonId|
                old(self).valid_button(o) ==> final(self).button_of(o) == old(self).button_of(o),
            forall|o: Self::ButtonId| final(self).valid_button(o) == old(self).valid_button(o),
            forall|o: Self::SignalId| final(self).valid_signal(o) == old(self).valid_signal(o),
    ;
}

/// A ready-made input state: one ordered slot per action, identified by
/// its index. Button action `i` owns slot `i` of the button table; signal
/// action `j` owns slot `j` of the signal table.
#[derive(Debug, Clone, PartialEq, Eq)]
pub struct ActionState {
    buttons: Vec<ButtonValue>,
    signals: Vec<bool>,
}

impl ActionState {
    /// Creates a container with the given number of button and signal
    /// slots, all zeroed.
    pub fn new(num_buttons: usize, num_signals: usize) -> (s: ActionState)
        ensures
            forall|i: usize| s.valid_button(i) <==> i < num_buttons,
            forall|j: usize| s.valid_signal(j) <==> j < num_signals,
            forall|i: usize| i < num_buttons ==> s.button_of(i) == ButtonValue::zeroed(),
            forall|j: usize| j < num_signals ==> s.signal_of(j) == false,
    {
        let mut buttons: Vec<ButtonValue> = Vec::new();
        let mut k: usize = 0;
        while k < num_buttons
            invariant
                k <= num_buttons,
                buttons@.len() == k,
                forall|i: int| 0 <= i < k ==> buttons@[i] == ButtonValue::zeroed(),
            decreases num_buttons - k,
        {
            buttons.push(ButtonValue::new());
            k += 1;
        }
        let mut signals: Vec<bool> = Vec::new();
        let mut k: usize = 0;
        while k < num_signals
            invariant
                k <= num_signals,
                signals@.len() == k,
                forall|j: int| 0 <= j < k ==> signals@[j] == false,
            decreases num_signals - k,
        {
            signals.push(false);
            k += 1;
        }
        ActionState { buttons, signals }
    }

    /// The number of button slots.
    pub fn num_buttons(&self) -> (n: usize)
        ensures
            forall|i: usize| self.valid_button(i) <==> i < n,
    {
        self.buttons.len()
    }

    /// The number of signal slots.
    pub fn num_signals(&self) -> (n: usize)
        ensures
            forall|j: usize| self.valid_signal(j) <==> j < n,
    {
        self.signals.len()
    }

    /// Reads a button slot without taking it mutably.
    pub fn button(&self, id: usize) -> (v: ButtonValue)
        requires
            self.valid_button(id),
        ensures
            v == self.button_of(id),
    {
        self.buttons[id]
    }

    /// Reads a signal slot without taking it mutably.
    pub fn signal(&self, id: usize) -> (v: bool)
        requires
            self.valid_signal(id),
        ensures
            v == self.signal_of(id),
    {
        self.signals[id]
    }
}

impl AdvanceFrame for ActionState {
    /// Advances every slot to the next frame: the edge flags and repeat
    /// counts of every button are cleared (level state persists), and
    /// every signal flag is lowered.
    fn advance_frame(&mut self)
        ensures
            forall|i: usize|
                final(self).valid_button(i) == old(self).valid_button(i),
            forall|j: usize|
                final(self).valid_signal(j) == old(self).valid_signal(j),
            forall|i: usize|
                old(self).valid_button(i)
                    ==> final(self).button_of(i) == old(self).button_of(i).advanced(),
            forall|j: usize| old(self).valid_signal(j) ==> final(self).signal_of(j) == false,
    {
        let n = self.buttons.len();
        let mut k: usize = 0;
        while k < n
            invariant
                k <= n,
                n == self.buttons@.len(),
                self.signals@ == old(self).signals@,
                self.buttons@.len() == old(self).buttons@.len(),
                forall|i: int| 0 <= i < k ==> self.buttons@[i] == old(self).buttons@[i].advanced(),
                forall|i: int| k <= i < n ==> self.buttons@[i] == old(self).buttons@[i],
            decreases n - k,
        {
            let b = &mut self.buttons[k];
            b.advance_frame();
            k += 1;
        }
        let m = self.signals.len();
        let mut k: usize = 0;
        while k < m
            invariant
                k <= m,
                m == self.signals@.len(),
                self.signals@.len() == old(self).signals@.len(),
                self.buttons@.len() == old(self).buttons@.len(),
                forall|i: int|
                    0 <= i < self.buttons@.len()
                        ==> self.buttons@[i] == old(self).buttons@[i].advanced(),
                forall|j: int| 0 <= j < k ==> self.signals@[j] == false,
                forall|j: int| k <= j < m ==> self.signals@[j] == old(self).signals@[j],
            decreases m - k,
        {
            self.signals.set(k, false);
            k += 1;
        }
    }
}

impl InputState for ActionState {
    type ButtonId = usize;

    type SignalId = usize;

    closed spec fn valid_button(&self, id: usize) -> bool {
        id < self.buttons@.len()
    }

    closed spec fn valid_signal(&self, id: usize) -> bool {
        id < self.signals@.len()
    }

    closed spec fn button_of(&self, id: usize) -> ButtonValue {
        self.buttons@[id as int]
    }

    closed spec fn signal_of(&self, id: usize) -> bool {
        self.signals@[id as int]
    }

    fn get_button<'a>(&'a mut self, id: &usize) -> (b: &'a mut ButtonValue) {
        &mut self.buttons[*id]
    }

    fn get_signal<'a>(&'a mut self, id: &usize) -> (s: &'a mut bool) {
        &mut self.signals[*id]
    }
}

} // verus!
