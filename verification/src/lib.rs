//! Verified terminal-surface model: grid storage with scrollback, cell
//! attributes, damage tracking, shell-integration block lifecycle, block text
//! extraction, hyperlink detection and the widget-side theme, key binding and
//! backend option logic.

pub mod block;
pub mod block_text;
pub mod cell;
pub mod color;
pub mod escape;
pub mod grid;
pub mod hyperlink;
pub mod index;
pub mod mode;
pub mod search;
pub mod snapshot;
pub mod state;
pub mod surface;
pub mod text;
pub mod ui;
