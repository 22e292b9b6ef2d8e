//! The buffer plugin: it keeps the text buffers and answers `buffer.new`,
//! `buffer.delete`, `buffer.get_content`, `buffer.open` and `buffer.list`.
pub mod base;
pub mod delete;
pub mod get_content;
pub mod list;
pub mod new;
pub mod open;
pub mod laws;
