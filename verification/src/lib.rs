//! Keymap resolution and input planning for synthetic X11 input.
//!
//! The crate decides *what* has to be sent to an X11 session in order to move
//! the pointer, click a button or type a character: which key, under which
//! modifier keys, yields a symbol in the current keyboard layout, and which
//! `XTEST` requests reproduce the keystroke. It performs no I/O itself. The
//! caller owns the connection, hands in what it read from the session and
//! carries out the actions that come back.
//!
//! - [`modset`]: sets of modifier indices.
//! - [`keymap`]: the forward table of a layout and the snapshot built from
//!   it.
//! - [`resolver`]: from a symbol to the keys that type it.
//! - [`simulate`]: what holding keys down does, and why a plan types its
//!   symbol.
//! - [`protocol`]: the requests that synthesize input.
//! - [`device`]: choosing the keyboard among the input devices.
//! - [`engine`]: the snapshot kept current, and the operations on it.
pub mod device;
pub mod engine;
pub mod keymap;
pub mod modset;
pub mod protocol;
pub mod resolver;
pub mod simulate;

pub use device::{find_keyboard, DeviceInfo, Error};
pub use engine::{keysym, Event, InputSynth};
pub use keymap::{Key, KeyTable, KeymapState, Level};
pub use modset::ModSet;
pub use protocol::{Action, FakeInput};
