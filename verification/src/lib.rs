//! A small game-input mapping library.
//!
//! Raw input events (keyboard keys, window-system signals) are bound to
//! game-defined action identifiers through a binding table, and the
//! per-frame state of every bound action (pressed / held / released /
//! repeat count for buttons, a one-shot flag for signals) is tracked in a
//! state container that is advanced once per frame.

pub mod change;
pub mod description;
pub mod key;
pub mod laws;
pub mod map;
pub mod mapper;
pub mod notification;
pub mod signal;
pub mod state;

pub use change::{ButtonChange, DescribeInputChanges, InputChange};
pub use description::{InputDesc, KeyDesc, Keytype, Mods};
pub use key::Key;
pub use map::{ButtonUpdateSource, InputMap, NotificationUpdateSource};
pub use mapper::InputMapper;
pub use notification::Notification;
pub use signal::Signal;
pub use state::{ActionState, AdvanceFrame, ButtonValue, InputIndex, InputState};
