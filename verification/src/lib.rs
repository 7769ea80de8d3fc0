//! Editing and presentation core of a text-input widget.
//!
//! The library turns discrete user intents (key presses, pointer gestures,
//! clipboard operations, IME composition events) into mutations of a text
//! buffer's content, cursor and selection state, and then turns that state
//! into a flat list of drawable primitives each frame.
//!
//! Host concerns stay outside: the host framework collects raw input and
//! translates it into [`actions::TextInputAction`] values, a text-shaping
//! collaborator produces the positioned glyphs that [`layout`] describes as
//! plain values, and the host renderer consumes the primitives that
//! [`render`] emits.

pub mod actions;
pub mod edit;
pub mod ime;
pub mod laws;
pub mod layout;
pub mod queue;
pub mod render;
pub mod text;
