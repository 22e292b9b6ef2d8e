// The wire framing, the protocol values and the bookkeeping around them.

use swiboe::c_api::{result_of_error, to_rpc_error_kind, CApiResult, CApiRpcErrorKind};
use swiboe::client::rpc::client::Context as CallContext;
use swiboe::client::rpc::server::{Command as ServedCommand, Context as ServedContext, Error as ServedError, Poll};
use swiboe::client::rpc_loop::{Command as LoopCommand, NewRpc, RpcLoop, Step};
use swiboe::error::Error;
use swiboe::ipc::{length_prefix, parse_length, Message, Reader, Writer};
use swiboe::plugin::buffer::base::IoErrorKind;
use swiboe::plugin::list_files::{FileBatch, ListFilesUpdate, UPDATE_INTERVAL_NANOS};
use swiboe::plugin::log::base::{log_functions, log_line, Request as LogRequest};
use swiboe::plugin::logger::LoggerRequest;
use swiboe::rpc;
use swiboe::server::api_table::{ApiInfo, ApiTable};
use swiboe::server::ipc_bridge::{command_of, ClientId, Connections, SendOutcome, TokenKind, MAX_CONNECTIONS};
use swiboe::server::plugin_core::{CorePlugin, CoreRequest};
use swiboe::server::swiboe::{Command, Handler};

fn call(function: &str, context: &str, args: &str) -> rpc::Call {
    rpc::Call { function: function.to_string(), context: context.to_string(), args: args.to_string() }
}

#[test]
fn length_prefix_is_little_endian() {
    assert_eq!(length_prefix(0), vec![0, 0, 0, 0]);
    assert_eq!(length_prefix(1), vec![1, 0, 0, 0]);
    assert_eq!(length_prefix(258), vec![2, 1, 0, 0]);
    assert_eq!(length_prefix(0x01020304), vec![4, 3, 2, 1]);
    assert_eq!(parse_length(&[4, 3, 2, 1, 99]), 0x01020304);
    assert_eq!(parse_length(&[255, 255, 255, 255]), 0xffff_ffff);
}

#[test]
fn written_frames_read_back() {
    let mut writer = Writer::new(());
    assert!(writer.is_empty());
    writer.queue_message(b"hello".to_vec());
    writer.queue_message(Vec::new());
    writer.queue_message(b"{}".to_vec());

    // Drain the writer two bytes at a time, as a slow socket would.
    let mut wire = Vec::new();
    while let Some((chunk, offset)) = writer.unwritten_front() {
        let left = chunk.len() - offset;
        let n = if left < 2 { left } else { 2 };
        wire.extend_from_slice(&chunk[offset..offset + n]);
        writer.advance(n);
    }
    assert!(writer.is_empty());
    assert_eq!(wire, b"\x05\x00\x00\x00hello\x00\x00\x00\x00\x02\x00\x00\x00{}".to_vec());

    let mut reader = Reader::new(());
    reader.push_data(&wire[..3]);
    assert_eq!(reader.next_frame(), None);
    reader.push_data(&wire[3..]);
    assert_eq!(reader.next_frame(), Some(b"hello".to_vec()));
    assert_eq!(reader.next_frame(), Some(Vec::new()));
    assert_eq!(reader.next_frame(), Some(b"{}".to_vec()));
    assert_eq!(reader.next_frame(), None);
}

#[test]
fn writer_reports_finished_chunks() {
    let mut writer = Writer::new(());
    writer.queue_message(b"ab".to_vec());
    assert_eq!(writer.advance(3), false);
    assert_eq!(writer.advance(1), true);
    assert_eq!(writer.unwritten_front(), Some((&b"ab".to_vec(), 0)));
    assert_eq!(writer.advance(1), false);
    assert_eq!(writer.unwritten_front(), Some((&b"ab".to_vec(), 1)));
    assert_eq!(writer.advance(1), true);
    assert_eq!(writer.unwritten_front(), None);
}

#[test]
fn error_kind_names_read_back() {
    for kind in [rpc::ErrorKind::UnknownRpc, rpc::ErrorKind::Io, rpc::ErrorKind::InvalidArgs] {
        assert_eq!(rpc::ErrorKind::from_str(kind.to_str()), kind);
    }
    assert_eq!(rpc::ErrorKind::UnknownRpc.to_str(), "UnknownRpc");
    assert_eq!(rpc::ErrorKind::from_str("InvalidArgs"), rpc::ErrorKind::InvalidArgs);
}

#[test]
fn rpc_results() {
    assert_eq!(rpc::Result::success_unit(), rpc::Result::Success("null".to_string()));
    assert!(rpc::Result::success_unit().is_ok());
    assert!(!rpc::Result::NotHandled.is_ok());
    let err = rpc::Error { kind: rpc::ErrorKind::Io, details: Some("\"x\"".to_string()) };
    let result = rpc::Result::Failure(err.clone());
    assert!(!result.is_ok());
    assert_eq!(result.unwrap_err(), err);
}

#[test]
fn c_api_codes() {
    assert_eq!(to_rpc_error_kind(CApiRpcErrorKind::RPC_ERR_UNKNOWN), rpc::ErrorKind::UnknownRpc);
    assert_eq!(to_rpc_error_kind(CApiRpcErrorKind::RPC_ERR_IO), rpc::ErrorKind::Io);
    assert_eq!(to_rpc_error_kind(CApiRpcErrorKind::RPC_ERR_INVALID_ARGS), rpc::ErrorKind::InvalidArgs);
    assert_eq!(CApiResult::SUCCESS.code(), 0);
    assert_eq!(CApiResult::ERR_INVALID_UTF8.code(), 5);
    assert_eq!(CApiRpcErrorKind::RPC_ERR_UNKNOWN.code(), 1);
    assert_eq!(CApiRpcErrorKind::RPC_ERR_INVALID_ARGS.code(), 3);
    assert_eq!(result_of_error(&Error::Disconnected), CApiResult::ERR_DISCONNECTED);
    assert_eq!(result_of_error(&Error::Io(IoErrorKind::BrokenPipe)), CApiResult::ERR_IO);
    assert_eq!(result_of_error(&Error::JsonParsing("eof".to_string())), CApiResult::ERR_JSON_PARSING);
    assert_eq!(result_of_error(&Error::RpcDone), CApiResult::ERR_RPC_DONE);
}

#[test]
fn api_table_orders_by_priority() {
    let a = ClientId { serial: 1, token: 1 };
    let b = ClientId { serial: 2, token: 2 };
    let c = ClientId { serial: 3, token: 3 };
    let name = "test.test".to_string();
    let mut table = ApiTable::new();
    assert_eq!(table.get_first(&name), None);
    table.register(name.clone(), ApiInfo { client_id: a, priority: 100 });
    table.register(name.clone(), ApiInfo { client_id: b, priority: 50 });
    table.register(name.clone(), ApiInfo { client_id: c, priority: 100 });
    assert_eq!(table.get_first(&name), Some(&ApiInfo { client_id: b, priority: 50 }));
    // A new implementation goes in front of those with the same priority.
    assert_eq!(table.get_next(&name, &b), Some(&ApiInfo { client_id: c, priority: 100 }));
    assert_eq!(table.get_next(&name, &c), Some(&ApiInfo { client_id: a, priority: 100 }));
    assert_eq!(table.get_next(&name, &a), None);
    table.deregister_by_client(&b);
    assert_eq!(table.get_first(&name), Some(&ApiInfo { client_id: c, priority: 100 }));
    table.deregister_by_client(&a);
    table.deregister_by_client(&c);
    assert_eq!(table.get_first(&name), None);
}

#[test]
fn core_functions() {
    let caller = ClientId { serial: 7, token: 3 };
    let core = CorePlugin::new();
    let (result, request) = core.call(caller, &call("core.exit", "x", "null"));
    assert_eq!(result, rpc::Result::Success("null".to_string()));
    assert_eq!(request, CoreRequest::Exit);
    let args = r#"{ "priority": 3, "name": "a.b" }"#;
    let (_, request) = core.call(caller, &call("core.new_rpc", "y", args));
    assert_eq!(request, CoreRequest::NewRpc(caller, args.to_string()));

    let handler = Handler::new();
    assert!(handler.accepts(&Command::RpcCall(caller, call("core.exit", "x", "null"))));
    assert!(!handler.accepts(&Command::RpcCall(caller, call("core.unknown", "x", "null"))));
    assert!(handler.accepts(&Command::RpcCall(caller, call("other.unknown", "x", "null"))));
}

#[test]
fn connections_hand_out_tokens_and_serials() {
    let mut conns = Connections::new(2);
    assert_eq!(conns.first_client_token(), 3);
    assert_eq!(conns.token_kind(0), TokenKind::UnixListener);
    assert_eq!(conns.token_kind(1), TokenKind::TcpListener(0));
    assert_eq!(conns.token_kind(2), TokenKind::TcpListener(1));
    assert_eq!(conns.token_kind(3), TokenKind::Client);

    let first = conns.new_client();
    let second = conns.new_client();
    assert_eq!(first, ClientId { serial: 1, token: 3 });
    assert_eq!(second, ClientId { serial: 2, token: 4 });
    assert!(conns.is_current(first));

    assert_eq!(conns.hang_up(3), Some(Command::ClientDisconnected(first)));
    assert_eq!(conns.hang_up(3), None);
    // The freed token goes to the next client, with a new serial number.
    assert_eq!(conns.accept(), Command::ClientConnected(ClientId { serial: 3, token: 3 }));
    assert!(!conns.is_current(first));
    assert_eq!(conns.get(3), Some(ClientId { serial: 3, token: 3 }));

    let message = Message::RpcCancel(rpc::Cancel { context: "c".to_string() });
    // A message for the client that went away is not delivered to the new one.
    assert_eq!(
        conns.route_send(first, message.clone()),
        SendOutcome::Failed(Command::SendDataFailed(first, message.clone()))
    );
    assert_eq!(conns.route_send(second, message.clone()), SendOutcome::Queue(4, message));
}

#[test]
fn connections_fill_up() {
    let mut conns = Connections::new(0);
    for i in 0..MAX_CONNECTIONS {
        assert!(!conns.is_full());
        assert_eq!(conns.new_client().token, i + 1);
    }
    assert!(conns.is_full());
    assert!(conns.has_serials_left());
    assert!(conns.hang_up(7).is_some());
    assert!(!conns.is_full());
    assert_eq!(conns.new_client(), ClientId { serial: MAX_CONNECTIONS as u64 + 1, token: 7 });
}

#[test]
fn bridge_commands_of_messages() {
    let id = ClientId { serial: 1, token: 5 };
    let c = call("f", "ctx", "{}");
    assert_eq!(command_of(id, Message::RpcCall(c.clone())), Command::RpcCall(id, c));
    let response = rpc::Response { context: "ctx".to_string(), kind: rpc::ResponseKind::Partial("1".to_string()) };
    assert_eq!(command_of(id, Message::RpcResponse(response.clone())), Command::RpcResponse(response));
    let cancel = rpc::Cancel { context: "ctx".to_string() };
    assert_eq!(command_of(id, Message::RpcCancel(cancel.clone())), Command::RpcCancel(cancel));
}

#[test]
fn calls_get_fresh_contexts() {
    let (a, cmd_a) = CallContext::new("f", "{}".to_string());
    let (b, _) = CallContext::new("f", "{}".to_string());
    let ctx_a = match cmd_a {
        LoopCommand::OutgoingCall(ctx, Message::RpcCall(c)) => {
            assert_eq!(c.context, ctx);
            assert_eq!(c.function, "f");
            assert_eq!(c.args, "{}");
            ctx
        },
        other => panic!("unexpected command {:?}", other),
    };
    assert_eq!(ctx_a.chars().count(), 36);
    for (i, c) in ctx_a.chars().enumerate() {
        if i == 8 || i == 13 || i == 18 || i == 23 {
            assert_eq!(c, '-');
        } else {
            assert!(c.is_ascii_digit() || ('a'..='f').contains(&c));
        }
    }
    assert_eq!(ctx_a.chars().nth(14), Some('4'));
    assert!(matches!(ctx_a.chars().nth(19), Some('8') | Some('9') | Some('a') | Some('b')));
    assert!(!a.done());
    let cancel_a = a.cancel();
    let cancel_b = b.cancel();
    assert_eq!(cancel_a, LoopCommand::CancelOutgoingRpc(ctx_a));
    assert_ne!(cancel_a, cancel_b);
}

#[test]
fn a_call_takes_partial_values_then_its_result() {
    let (mut ctx, _) = CallContext::with_context("c".to_string(), "f", "{}".to_string());
    assert_eq!(ctx.receive(rpc::ResponseKind::Partial("1".to_string())), Some("1".to_string()));
    assert!(!ctx.done());
    assert_eq!(ctx.receive(rpc::ResponseKind::Last(rpc::Result::NotHandled)), None);
    assert!(ctx.done());
    assert_eq!(ctx.take_result(), Some(rpc::Result::NotHandled));
    assert!(!ctx.done());
    assert_eq!(ctx.take_result(), None);
}

#[test]
fn a_served_call_answers_once() {
    let mut ctx = ServedContext::new("c".to_string());
    assert!(ctx.is_alive());
    assert_eq!(
        ctx.update(Poll::Empty, "1".to_string()),
        Ok(Message::RpcResponse(rpc::Response { context: "c".to_string(), kind: rpc::ResponseKind::Partial("1".to_string()) }))
    );
    assert_eq!(
        ctx.finish(Poll::Empty, rpc::Result::NotHandled),
        Ok(Message::RpcResponse(rpc::Response { context: "c".to_string(), kind: rpc::ResponseKind::Last(rpc::Result::NotHandled) }))
    );
    assert!(!ctx.is_alive());
    assert_eq!(ctx.update(Poll::Empty, "2".to_string()), Err(ServedError::Finished));
    assert_eq!(ctx.finish(Poll::Empty, rpc::Result::NotHandled), Err(ServedError::Finished));
    assert!(ctx.call(Poll::Empty, "g", "{}".to_string()).is_err());
    // A cancellation that arrives late still counts.
    assert!(ctx.cancelled(Poll::Received(ServedCommand::Cancel)));
    assert_eq!(ctx.update(Poll::Empty, "3".to_string()), Err(ServedError::Cancelled));
}

#[test]
fn a_served_call_is_cancelled_when_the_client_goes() {
    let mut ctx = ServedContext::new("c".to_string());
    assert!(!ctx.cancelled(Poll::Empty));
    let (outgoing, cmd) = ctx.call(Poll::Empty, "g", "{}".to_string()).unwrap();
    assert!(!outgoing.done());
    match cmd {
        LoopCommand::OutgoingCall(_, Message::RpcCall(c)) => assert_eq!(c.function, "g"),
        other => panic!("unexpected command {:?}", other),
    }
    assert_eq!(ctx.finish(Poll::Disconnected, rpc::Result::NotHandled), Err(ServedError::Cancelled));
    assert!(!ctx.is_alive());
}

#[test]
fn routing_loop_steps() {
    let mut rpc_loop: RpcLoop<&str> = RpcLoop::new();
    rpc_loop.register(NewRpc::new("f".to_string(), "first"));
    rpc_loop.register(NewRpc::new("f".to_string(), "second"));
    assert_eq!(rpc_loop.procedure(&"f".to_string()), Some(&"second"));
    assert_eq!(rpc_loop.procedure(&"g".to_string()), None);

    let c = call("f", "in", "{}");
    assert_eq!(rpc_loop.handle_command(LoopCommand::Received(Message::RpcCall(c.clone()))), Step::Invoke(c));
    assert_eq!(rpc_loop.handle_command(LoopCommand::Received(Message::RpcCall(call("g", "in2", "{}")))), Step::Idle);
    let cancel = rpc::Cancel { context: "in".to_string() };
    assert_eq!(rpc_loop.handle_command(LoopCommand::Received(Message::RpcCancel(cancel.clone()))), Step::Cancel("in".to_string()));
    assert_eq!(rpc_loop.handle_command(LoopCommand::Received(Message::RpcCancel(cancel))), Step::Idle);

    let response = rpc::Response { context: "out".to_string(), kind: rpc::ResponseKind::Last(rpc::Result::NotHandled) };
    assert_eq!(rpc_loop.handle_command(LoopCommand::Received(Message::RpcResponse(response.clone()))), Step::Idle);
    let start = Message::RpcCall(call("h", "out", "{}"));
    assert_eq!(rpc_loop.handle_command(LoopCommand::OutgoingCall("out".to_string(), start.clone())), Step::Send(start));
    assert_eq!(rpc_loop.handle_command(LoopCommand::Received(Message::RpcResponse(response.clone()))), Step::Deliver(response));
    assert_eq!(
        rpc_loop.handle_command(LoopCommand::CancelOutgoingRpc("out".to_string())),
        Step::Send(Message::RpcCancel(rpc::Cancel { context: "out".to_string() }))
    );
    let m = Message::RpcCancel(rpc::Cancel { context: "z".to_string() });
    assert_eq!(rpc_loop.handle_command(LoopCommand::Send(m.clone())), Step::Send(m));
    assert_eq!(rpc_loop.handle_command(LoopCommand::Quit), Step::Quit);
}

#[test]
fn file_names_go_out_in_batches() {
    let mut batch = FileBatch::new(1_000);
    assert_eq!(batch.add("a".to_string(), 1_000 + UPDATE_INTERVAL_NANOS), None);
    assert_eq!(batch.add("b".to_string(), 500), None);
    assert_eq!(
        batch.add("c".to_string(), 1_001 + UPDATE_INTERVAL_NANOS),
        Some(ListFilesUpdate { files: vec!["a".to_string(), "b".to_string(), "c".to_string()] })
    );
    assert_eq!(batch.add("d".to_string(), 1_002 + UPDATE_INTERVAL_NANOS), None);
    assert_eq!(batch.take(), ListFilesUpdate { files: vec!["d".to_string()] });
    assert_eq!(batch.take(), ListFilesUpdate { files: Vec::new() });
}

#[test]
fn log_lines() {
    let request = LogRequest { message: "hello".to_string(), time: "12:00".to_string() };
    assert_eq!(log_line("INFO", &request), "12:00 - [INFO] - hello");
    let functions = log_functions();
    assert_eq!(functions, vec![("log.debug", "DEBUG"), ("log.info", "INFO"), ("log.warn", "WARN"), ("log.error", "ERROR")]);
    let request = LoggerRequest { level: "WARN".to_string(), message: "m".to_string(), time: "t".to_string() };
    assert_eq!(request.line(), "t - [WARN] - m");
}
