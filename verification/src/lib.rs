//! A per-repository task-list manager: an ordered store of task items, a
//! hide-completed visibility filter, a modal interactive session (navigation,
//! inline editing, confirm-gated deletion), and a character-level list
//! renderer that wraps descriptions into a fixed grid of styled cells.

pub mod item;
pub mod visibility;
pub mod session;
pub mod input;
pub mod render;
pub mod paths;
