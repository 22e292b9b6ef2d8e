//! The buffer plugin's values under the names of its flat interface.
use vstd::prelude::*;

pub use crate::plugin::buffer::base::{BufferCreated, BufferDeleted, BufferError};

verus! {

/// The arguments of `buffer.new`.
pub type NewRequest = crate::plugin::buffer::new::Request;
/// The answer of `buffer.new`.
pub type NewResponse = crate::plugin::buffer::new::Response;
/// The arguments of `buffer.delete`.
pub type DeleteRequest = crate::plugin::buffer::delete::Request;
/// The answer of `buffer.delete`.
pub type DeleteResponse = crate::plugin::buffer::delete::Response;
/// The arguments of `buffer.get_content`.
pub type GetContentRequest = crate::plugin::buffer::get_content::Request;
/// The answer of `buffer.get_content`.
pub type GetContentResponse = crate::plugin::buffer::get_content::Response;
/// The arguments of `buffer.open`.
pub type OpenRequest = crate::plugin::buffer::open::Request;
/// The answer of `buffer.open`.
pub type OpenResponse = crate::plugin::buffer::open::Response;
/// The arguments of `buffer.list`.
pub type ListRequest = crate::plugin::buffer::list::Request;
/// The answer of `buffer.list`.
pub type ListResponse = crate::plugin::buffer::list::Response;

} // verus!
