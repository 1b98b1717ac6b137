//! Widget-side logic: configuration errors, themes, behavior policies, key
//! bindings, IME range conversion, backend launch options and widget events.

pub mod error;
pub mod event;
pub mod geometry;
pub mod backend;
pub mod behavior;
pub mod bindings;
pub mod input;
pub mod theme;
