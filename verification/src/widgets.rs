//! The widgets themselves: each one owns its declaration-time data and hands
//! the layout pass a description of itself.

pub mod container;
pub mod hstack;
pub mod stack;
pub mod text_field;
