// The buffer plugin's functions on concrete buffers.

use swiboe::plugin::buffer::base::{buffer_created_rpc, buffer_deleted_rpc, io_error, BufferCreated, BufferDeleted, BufferError, BuffersManager, IoErrorKind};
use swiboe::plugin::buffer::{delete, get_content, list, new, open};
use swiboe::rpc;

fn create_buffer(buffers: &mut BuffersManager, expected_index: usize, content: Option<&str>) {
    let request = new::Request { content: content.map(|s| s.to_string()) };
    assert_eq!(new::handle(buffers, request), new::Response { buffer_index: expected_index });
}

#[test]
fn buffer_new() {
    let mut buffers = BuffersManager::new();
    create_buffer(&mut buffers, 0, None);
    // Those who registered `on.buffer.new` hear of the buffer under its index.
    assert_eq!(buffer_created_rpc(), "on.buffer.new");
    assert_eq!(BufferCreated { buffer_index: 0 }.buffer_index, 0);
    let content = get_content::handle(&buffers, get_content::Request { buffer_index: 0 }).unwrap();
    assert_eq!(content.content, "");
}

#[test]
fn buffer_new_with_content() {
    let mut buffers = BuffersManager::new();
    let content = "blub\nblah\nbli";
    create_buffer(&mut buffers, 0, Some(content));
    let response = get_content::handle(&buffers, get_content::Request { buffer_index: 0 });
    assert_eq!(response, Ok(get_content::Response { content: content.into() }));
}

#[test]
fn buffer_open_unhandled_uri() {
    // A URI that is not a file is not handled by the buffer plugin.
    let request = open::Request { uri: "blumba://foo".into() };
    assert_eq!(open::file_path(&request), None);
}

#[test]
fn buffer_delete() {
    let mut buffers = BuffersManager::new();
    create_buffer(&mut buffers, 0, None);
    let request = delete::Request { buffer_index: 0 };
    assert_eq!(delete::handle(&mut buffers, request), Ok(delete::Response));
    // Those who registered `on.buffer.deleted` hear of it.
    assert_eq!(buffer_deleted_rpc(), "on.buffer.deleted");
    assert_eq!(BufferDeleted { buffer_index: 0 }.buffer_index, 0);
}

#[test]
fn buffer_delete_non_existing() {
    let mut buffers = BuffersManager::new();
    let request = delete::Request { buffer_index: 0 };
    let err = delete::handle(&mut buffers, request).unwrap_err();
    assert_eq!(err, BufferError::UnknownBuffer);
    let rpc_error = err.to_rpc_error();
    assert_eq!(rpc_error.kind, rpc::ErrorKind::InvalidArgs);
    let details: serde_json::Value = serde_json::from_str(&rpc_error.details.unwrap()).unwrap();
    assert_eq!(details.as_str(), Some("unknown_buffer"));
}

#[test]
fn buffer_open_file_uri_names_a_path() {
    let request = open::Request { uri: "file:///tmp/foo".into() };
    assert_eq!(open::file_path(&request), Some("/tmp/foo".to_string()));
    let request = open::Request { uri: "file:/".into() };
    assert_eq!(open::file_path(&request), None);
}

#[test]
fn buffer_open_content_becomes_a_buffer() {
    let mut buffers = BuffersManager::new();
    create_buffer(&mut buffers, 0, Some("first"));
    let response = open::handle_content(&mut buffers, "blub\nblah\nbli".to_string());
    assert_eq!(response, open::Response { buffer_index: 1 });
    let content = get_content::handle(&buffers, get_content::Request { buffer_index: 1 }).unwrap();
    assert_eq!(content.content, "blub\nblah\nbli");
}

#[test]
fn buffer_indices_are_never_reused() {
    let mut buffers = BuffersManager::new();
    create_buffer(&mut buffers, 0, None);
    create_buffer(&mut buffers, 1, None);
    create_buffer(&mut buffers, 2, None);
    assert_eq!(delete::handle(&mut buffers, delete::Request { buffer_index: 1 }), Ok(delete::Response));
    create_buffer(&mut buffers, 3, None);
    assert_eq!(list::handle(&buffers, list::Request).buffer_indices, vec![0, 2, 3]);
    assert_eq!(
        get_content::handle(&buffers, get_content::Request { buffer_index: 1 }),
        Err(BufferError::UnknownBuffer)
    );
    assert_eq!(delete::handle(&mut buffers, delete::Request { buffer_index: 1 }), Err(BufferError::UnknownBuffer));
}

#[test]
fn buffer_io_errors_name_their_kind() {
    let err = io_error(IoErrorKind::NotFound);
    assert_eq!(err.kind, rpc::ErrorKind::Io);
    assert_eq!(err.details, Some("\"not_found\"".to_string()));
    assert_eq!(io_error(IoErrorKind::PermissionDenied).details, Some("\"not_found\"".to_string()));
    assert_eq!(io_error(IoErrorKind::Other).details, Some("\"unknown\"".to_string()));
    assert_eq!(io_error(IoErrorKind::TimedOut).details, Some("\"timed_out\"".to_string()));
}
