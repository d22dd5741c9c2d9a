//! A small GUI-toolkit core: widgets declare themselves, a layout snapshot
//! gives each widget its screen bounds, and an event manager turns raw input
//! events into per-widget interaction state and callback dispatch.
//!
//! The interaction state machine in [`events`] is the heart of the crate: it
//! is a pure function from (previous state, layout geometry, input event) to
//! (new state, callback invocations), and its transition rules are stated and
//! verified as contracts.

pub mod colors;
pub mod events;
pub mod geometry;
mod ident;
pub mod laws;
pub mod layout;
pub mod primitives;
pub mod surface;
pub mod widgets;

pub use geometry::Bounds;
pub use geometry::Position;
pub use geometry::Size;
