//! The logic that the front ends share: key mappings, views of buffers, and the
//! decisions of the terminal front end.
pub mod keymap_handler;
pub mod buffer_views;
pub mod terminal;
