// Calls routed through the switchboard's decisions, from the calling client's
// context to the serving client's context and back.

use swiboe::client::rpc::client::Context as CallContext;
use swiboe::client::rpc::server::{Command as ServedCommand, Context as ServedContext, Poll};
use swiboe::client::rpc_loop::{Command as LoopCommand, NewRpc, RpcLoop, Step};
use swiboe::ipc::Message;
use swiboe::rpc;
use swiboe::server::ipc_bridge::ClientId;
use swiboe::server::plugin_core::CoreRequest;
use swiboe::server::swiboe::{Action, Command, Handler};
use swiboe::spinner;

fn client_id(serial: u64) -> ClientId {
    ClientId { serial, token: serial as usize + 1 }
}

fn connect(handler: &mut Handler, serial: u64) -> ClientId {
    let id = client_id(serial);
    let reaction = handler.handle(Command::ClientConnected(id));
    assert_eq!(reaction.control, spinner::Command::Continue);
    assert!(reaction.actions.is_empty());
    id
}

fn disconnect(handler: &mut Handler, id: ClientId) {
    let reaction = handler.handle(Command::ClientDisconnected(id));
    assert!(reaction.actions.is_empty());
}

// Registers `name` for `id` the way a client does: by calling `core.new_rpc`,
// whose arguments the surroundings read and hand back as a command.
fn new_rpc(handler: &mut Handler, id: ClientId, name: &str, priority: u16) {
    let args = format!(r#"{{ "priority": {}, "name": "{}" }}"#, priority, name);
    let (_, cmd) = CallContext::with_context(format!("new_rpc-{}-{}", id.serial, name), "core.new_rpc", args);
    let call = match cmd {
        LoopCommand::OutgoingCall(_, Message::RpcCall(call)) => call,
        other => panic!("unexpected command {:?}", other),
    };
    let reaction = handler.handle(Command::RpcCall(id, call));
    assert_eq!(reaction.actions.len(), 2);
    let request = match &reaction.actions[0] {
        Action::Core(CoreRequest::NewRpc(caller, args)) => {
            assert_eq!(*caller, id);
            let value: serde_json::Value = serde_json::from_str(args).unwrap();
            (value["name"].as_str().unwrap().to_string(), value["priority"].as_u64().unwrap() as u16)
        },
        other => panic!("unexpected action {:?}", other),
    };
    match &reaction.actions[1] {
        Action::SendData(to, Message::RpcResponse(response)) => {
            assert_eq!(*to, id);
            assert_eq!(response.kind, rpc::ResponseKind::Last(rpc::Result::Success("null".to_string())));
        },
        other => panic!("unexpected action {:?}", other),
    }
    let reaction = handler.handle(Command::NewRpc(id, request.0, request.1));
    assert!(reaction.actions.is_empty());
}

// A client that answers every call it gets with a fixed result.
struct TestCall {
    id: ClientId,
    result: rpc::Result,
}

// Calls `function` from `caller` and serves the call with the test calls
// until the final result reaches the caller.
fn call(handler: &mut Handler, serving: &[TestCall], caller: ClientId, context: &str, function: &str, args: &str) -> rpc::Result {
    let (mut ctx, cmd) = CallContext::with_context(context.to_string(), function, args.to_string());
    let call = match cmd {
        LoopCommand::OutgoingCall(c, Message::RpcCall(call)) => {
            assert_eq!(c, context);
            call
        },
        other => panic!("unexpected command {:?}", other),
    };
    let mut pending = handler.handle(Command::RpcCall(caller, call)).actions;
    loop {
        assert_eq!(pending.len(), 1);
        match pending.remove(0) {
            Action::SendData(to, Message::RpcCall(served)) => {
                assert_eq!(served.function, function);
                assert_eq!(served.args, args);
                let test_call = serving.iter().find(|t| t.id == to).expect("call sent to an unknown client");
                let mut served_ctx = ServedContext::new(served.context.clone());
                match served_ctx.finish(Poll::Empty, test_call.result.clone()).unwrap() {
                    Message::RpcResponse(response) => {
                        pending = handler.handle(Command::RpcResponse(response)).actions;
                    },
                    other => panic!("unexpected message {:?}", other),
                }
            },
            Action::SendData(to, Message::RpcResponse(response)) => {
                assert_eq!(to, caller);
                assert_eq!(response.context, context);
                assert_eq!(ctx.receive(response.kind), None);
                assert!(ctx.done());
                return ctx.take_result().unwrap();
            },
            other => panic!("unexpected action {:?}", other),
        }
    }
}

fn unknown_rpc() -> rpc::Result {
    rpc::Result::Failure(rpc::Error { kind: rpc::ErrorKind::UnknownRpc, details: None })
}

#[test]
fn core_shutdown_server_with_clients_connected() {
    let mut handler = Handler::new();
    connect(&mut handler, 1);
    let reaction = handler.handle(Command::Quit);
    assert_eq!(reaction.control, spinner::Command::Quit);
    assert!(reaction.actions.is_empty());
}

#[test]
fn core_shutdown_server_with_no_clients_connected() {
    let mut handler = Handler::new();
    let reaction = handler.handle(Command::Quit);
    assert_eq!(reaction.control, spinner::Command::Quit);
    assert!(reaction.actions.is_empty());
}

#[test]
fn lib_shutdown_server_with_clients_connected() {
    let mut handler = Handler::new();
    connect(&mut handler, 1);
    connect(&mut handler, 2);
    let reaction = handler.handle(Command::Quit);
    assert_eq!(reaction.control, spinner::Command::Quit);
}

#[test]
fn lib_shutdown_server_with_no_clients_connected() {
    let mut handler = Handler::new();
    let reaction = handler.handle(Command::Quit);
    assert_eq!(reaction.control, spinner::Command::Quit);
}

#[test]
fn new_rpc_simple() {
    let mut handler = Handler::new();
    let client1 = connect(&mut handler, 1);
    let client2 = connect(&mut handler, 2);
    let test_msg = r#"{ "blub": "blah" }"#;
    new_rpc(&mut handler, client1, "test.test", 0);
    let serving = [TestCall { id: client1, result: rpc::Result::Success(test_msg.to_string()) }];
    let result = call(&mut handler, &serving, client2, "c1", "test.test", test_msg);
    assert_eq!(result, rpc::Result::Success(test_msg.to_string()));
}

#[test]
fn new_rpc_with_priority() {
    let mut handler = Handler::new();
    let client1 = connect(&mut handler, 1);
    new_rpc(&mut handler, client1, "test.test", 100);
    let client2 = connect(&mut handler, 2);
    new_rpc(&mut handler, client2, "test.test", 50);
    let client3 = connect(&mut handler, 3);
    let serving = [
        TestCall { id: client1, result: rpc::Result::Success(r#"{ "from": "client1" }"#.to_string()) },
        TestCall { id: client2, result: rpc::Result::Success(r#"{ "from": "client2" }"#.to_string()) },
    ];
    let result = call(&mut handler, &serving, client3, "c1", "test.test", "{}");
    assert_eq!(rpc::Result::Success(r#"{ "from": "client2" }"#.to_string()), result);
}

#[test]
fn new_rpc_with_priority_first_does_not_handle() {
    let mut handler = Handler::new();
    let client1 = connect(&mut handler, 1);
    new_rpc(&mut handler, client1, "test.test", 100);
    let client2 = connect(&mut handler, 2);
    new_rpc(&mut handler, client2, "test.test", 50);
    let client3 = connect(&mut handler, 3);
    let serving = [
        TestCall { id: client1, result: rpc::Result::Success(r#"{ "from": "client1" }"#.to_string()) },
        TestCall { id: client2, result: rpc::Result::NotHandled },
    ];
    let result = call(&mut handler, &serving, client3, "c1", "test.test", "{}");
    assert_eq!(rpc::Result::Success(r#"{ "from": "client1" }"#.to_string()), result);
}

#[test]
fn client_disconnects_should_not_stop_handling_of_rpcs() {
    let mut handler = Handler::new();
    let client0 = connect(&mut handler, 10);
    new_rpc(&mut handler, client0, "test.test", 100);
    let client1 = connect(&mut handler, 11);
    new_rpc(&mut handler, client1, "test.test", 101);
    let client2 = connect(&mut handler, 12);
    new_rpc(&mut handler, client2, "test.test", 102);
    let client3 = connect(&mut handler, 13);
    new_rpc(&mut handler, client3, "test.test", 103);
    let client = connect(&mut handler, 14);
    let serving = [
        TestCall { id: client0, result: rpc::Result::NotHandled },
        TestCall { id: client1, result: rpc::Result::Success(r#"{ "from": "client1" }"#.to_string()) },
        TestCall { id: client2, result: rpc::Result::NotHandled },
        TestCall { id: client3, result: rpc::Result::Success(r#"{ "from": "client3" }"#.to_string()) },
    ];

    let result = call(&mut handler, &serving, client, "c1", "test.test", "{}");
    assert_eq!(rpc::Result::Success(r#"{ "from": "client1" }"#.to_string()), result);

    disconnect(&mut handler, client1); // clients: 0 2 3
    let result = call(&mut handler, &serving, client, "c2", "test.test", "{}");
    assert_eq!(rpc::Result::Success(r#"{ "from": "client3" }"#.to_string()), result);

    disconnect(&mut handler, client0); // clients: 2 3
    let result = call(&mut handler, &serving, client, "c3", "test.test", "{}");
    assert_eq!(rpc::Result::Success(r#"{ "from": "client3" }"#.to_string()), result);

    disconnect(&mut handler, client3); // clients: 2
    let result = call(&mut handler, &serving, client, "c4", "test.test", "{}");
    assert_eq!(rpc::Result::NotHandled, result);

    disconnect(&mut handler, client2); // clients:
    let result = call(&mut handler, &serving, client, "c5", "test.test", "{}");
    assert_eq!(unknown_rpc(), result);
}

#[test]
fn call_not_existing_rpc() {
    let mut handler = Handler::new();
    let client = connect(&mut handler, 1);
    let result = call(&mut handler, &[], client, "c1", "not_existing", "{}");
    assert_eq!(unknown_rpc(), result);
}

#[test]
fn call_streaming_rpc_simple() {
    let mut handler = Handler::new();
    let streaming_client = connect(&mut handler, 1);
    new_rpc(&mut handler, streaming_client, "test.test", 50);
    let client = connect(&mut handler, 2);

    let (mut ctx, cmd) = CallContext::with_context("c1".to_string(), "test.test", "{}".to_string());
    let call = match cmd {
        LoopCommand::OutgoingCall(_, Message::RpcCall(call)) => call,
        other => panic!("unexpected command {:?}", other),
    };
    let actions = handler.handle(Command::RpcCall(client, call)).actions;
    let served = match &actions[..] {
        [Action::SendData(to, Message::RpcCall(served))] => {
            assert_eq!(*to, streaming_client);
            served.clone()
        },
        other => panic!("unexpected actions {:?}", other),
    };

    let mut served_ctx = ServedContext::new(served.context.clone());
    let mut messages = Vec::new();
    messages.push(served_ctx.update(Poll::Empty, r#"{ "msg": "one" }"#.to_string()).unwrap());
    messages.push(served_ctx.update(Poll::Empty, r#"{ "msg": "two" }"#.to_string()).unwrap());
    messages.push(served_ctx.update(Poll::Empty, r#"{ "msg": "three" }"#.to_string()).unwrap());
    messages.push(served_ctx.finish(Poll::Empty, rpc::Result::Success(r#"{ "foo": "blah" }"#.to_string())).unwrap());
    assert!(!served_ctx.is_alive());

    let mut received = Vec::new();
    for message in messages {
        let response = match message {
            Message::RpcResponse(response) => response,
            other => panic!("unexpected message {:?}", other),
        };
        let actions = handler.handle(Command::RpcResponse(response)).actions;
        assert_eq!(actions.len(), 1);
        match &actions[0] {
            Action::SendData(to, Message::RpcResponse(response)) => {
                assert_eq!(*to, client);
                assert_eq!(response.context, "c1");
                if let Some(value) = ctx.receive(response.kind.clone()) {
                    received.push(value);
                }
            },
            other => panic!("unexpected action {:?}", other),
        }
    }
    assert_eq!(received, vec![
        r#"{ "msg": "one" }"#.to_string(),
        r#"{ "msg": "two" }"#.to_string(),
        r#"{ "msg": "three" }"#.to_string(),
    ]);
    assert_eq!(ctx.take_result(), Some(rpc::Result::Success(r#"{ "foo": "blah" }"#.to_string())));
}

#[test]
fn call_streaming_rpc_cancelled() {
    let mut handler = Handler::new();
    let streaming_client = connect(&mut handler, 1);
    new_rpc(&mut handler, streaming_client, "test.test", 50);
    let client = connect(&mut handler, 2);

    // The serving client's routing loop knows the function.
    let mut serving_loop: RpcLoop<u16> = RpcLoop::new();
    serving_loop.register(NewRpc::new("test.test".to_string(), 50));
    // The calling client's routing loop.
    let mut calling_loop: RpcLoop<u16> = RpcLoop::new();

    let (ctx, cmd) = CallContext::with_context("c1".to_string(), "test.test", "{}".to_string());
    let mut ctx = Some(ctx);
    let call = match calling_loop.handle_command(cmd) {
        Step::Send(Message::RpcCall(call)) => call,
        other => panic!("unexpected step {:?}", other),
    };
    let actions = handler.handle(Command::RpcCall(client, call)).actions;
    let served = match &actions[..] {
        [Action::SendData(to, message)] => {
            assert_eq!(*to, streaming_client);
            match serving_loop.handle_command(LoopCommand::Received(message.clone())) {
                Step::Invoke(served) => served,
                other => panic!("unexpected step {:?}", other),
            }
        },
        other => panic!("unexpected actions {:?}", other),
    };
    assert_eq!(serving_loop.procedure(&served.function), Some(&50));
    let mut served_ctx = ServedContext::new(served.context.clone());

    // The served call streams values until it is cancelled.
    let mut count = 0;
    let mut cancel_poll = Poll::Empty;
    let mut received = Vec::new();
    while !served_ctx.cancelled(cancel_poll) {
        let message = served_ctx.update(Poll::Empty, format!(r#"{{ "value": "{}" }}"#, count)).unwrap();
        count += 1;
        let response = match message {
            Message::RpcResponse(response) => response,
            other => panic!("unexpected message {:?}", other),
        };
        for action in handler.handle(Command::RpcResponse(response)).actions {
            match action {
                Action::SendData(to, message) => {
                    assert_eq!(to, client);
                    match calling_loop.handle_command(LoopCommand::Received(message)) {
                        Step::Deliver(response) => {
                            if let Some(value) = ctx.as_mut().unwrap().receive(response.kind) {
                                received.push(value);
                            }
                        },
                        other => panic!("unexpected step {:?}", other),
                    }
                },
                other => panic!("unexpected action {:?}", other),
            }
        }
        if received.len() == 4 {
            // The caller cancels; the cancellation travels to the served call.
            let cancel = ctx.take().unwrap().cancel();
            let message = match calling_loop.handle_command(cancel) {
                Step::Send(message) => message,
                other => panic!("unexpected step {:?}", other),
            };
            let cancel = match message {
                Message::RpcCancel(cancel) => cancel,
                other => panic!("unexpected message {:?}", other),
            };
            let actions = handler.handle(Command::RpcCancel(cancel)).actions;
            let message = match &actions[..] {
                [Action::SendData(to, message)] => {
                    assert_eq!(*to, streaming_client);
                    message.clone()
                },
                other => panic!("unexpected actions {:?}", other),
            };
            match serving_loop.handle_command(LoopCommand::Received(message)) {
                Step::Cancel(context) => assert_eq!(context, served.context),
                other => panic!("unexpected step {:?}", other),
            }
            cancel_poll = Poll::Received(ServedCommand::Cancel);
        }
    }
    assert_eq!(received, vec![
        r#"{ "value": "0" }"#.to_string(),
        r#"{ "value": "1" }"#.to_string(),
        r#"{ "value": "2" }"#.to_string(),
        r#"{ "value": "3" }"#.to_string(),
    ]);
    assert!(served_ctx.finish(Poll::Empty, rpc::Result::Success(r#"{ "foo": "blah" }"#.to_string())).is_err());
    assert!(!served_ctx.is_alive());
}

#[test]
fn core_exit_stops_the_switchboard() {
    let mut handler = Handler::new();
    let client = connect(&mut handler, 1);
    let call = rpc::Call { function: "core.exit".to_string(), context: "x".to_string(), args: "null".to_string() };
    let reaction = handler.handle(Command::RpcCall(client, call));
    assert_eq!(reaction.control, spinner::Command::Continue);
    assert_eq!(reaction.actions.len(), 2);
    assert_eq!(reaction.actions[0], Action::Core(CoreRequest::Exit));
    assert_eq!(
        reaction.actions[1],
        Action::SendData(client, Message::RpcResponse(rpc::Response {
            context: "x".to_string(),
            kind: rpc::ResponseKind::Last(rpc::Result::Success("null".to_string())),
        }))
    );
}

#[test]
fn undeliverable_call_goes_to_the_next_implementation() {
    let mut handler = Handler::new();
    let client1 = connect(&mut handler, 1);
    new_rpc(&mut handler, client1, "test.test", 100);
    let client2 = connect(&mut handler, 2);
    new_rpc(&mut handler, client2, "test.test", 50);
    let caller = connect(&mut handler, 3);
    let call = rpc::Call { function: "test.test".to_string(), context: "c".to_string(), args: "{}".to_string() };
    let actions = handler.handle(Command::RpcCall(caller, call.clone())).actions;
    assert_eq!(actions, vec![Action::SendData(client2, Message::RpcCall(call.clone()))]);
    // The bridge could not deliver the call to client2: it goes on to client1.
    let failed = Command::SendDataFailed(client2, Message::RpcCall(call.clone()));
    assert!(handler.accepts(&failed));
    let actions = handler.handle(failed).actions;
    assert_eq!(actions, vec![Action::SendData(client1, Message::RpcCall(call.clone()))]);
    // A response that could not be delivered is dropped.
    let lost = Message::RpcCancel(rpc::Cancel { context: "c".to_string() });
    assert!(handler.handle(Command::SendDataFailed(caller, lost)).actions.is_empty());
    // A cancellation reaches the implementation that has the call now.
    let cancel = rpc::Cancel { context: "c".to_string() };
    let actions = handler.handle(Command::RpcCancel(cancel.clone())).actions;
    assert_eq!(actions, vec![Action::SendData(client1, Message::RpcCancel(cancel.clone()))]);
    // Once cancelled, the call is gone: a late answer is dropped.
    let late = rpc::Response { context: "c".to_string(), kind: rpc::ResponseKind::Partial("1".to_string()) };
    assert!(handler.handle(Command::RpcResponse(late)).actions.is_empty());
}

#[test]
fn a_call_that_nobody_handles_is_over() {
    let mut handler = Handler::new();
    let client1 = connect(&mut handler, 1);
    new_rpc(&mut handler, client1, "test.test", 100);
    let caller = connect(&mut handler, 2);
    let call = rpc::Call { function: "test.test".to_string(), context: "c".to_string(), args: "{}".to_string() };
    let actions = handler.handle(Command::RpcCall(caller, call.clone())).actions;
    assert_eq!(actions, vec![Action::SendData(client1, Message::RpcCall(call.clone()))]);
    let declined = rpc::Response { context: "c".to_string(), kind: rpc::ResponseKind::Last(rpc::Result::NotHandled) };
    let actions = handler.handle(Command::RpcResponse(declined.clone())).actions;
    assert_eq!(actions, vec![Action::SendData(caller, Message::RpcResponse(declined))]);
    // The call is over: a late success is not passed on.
    let late = rpc::Response { context: "c".to_string(), kind: rpc::ResponseKind::Last(rpc::Result::Success("1".to_string())) };
    assert!(handler.handle(Command::RpcResponse(late)).actions.is_empty());
}

#[test]
fn a_running_call_keeps_the_implementations_it_started_with() {
    let mut handler = Handler::new();
    let client1 = connect(&mut handler, 1);
    new_rpc(&mut handler, client1, "test.test", 10);
    let client2 = connect(&mut handler, 2);
    new_rpc(&mut handler, client2, "test.test", 20);
    let client3 = connect(&mut handler, 3);
    new_rpc(&mut handler, client3, "test.test", 30);
    let caller = connect(&mut handler, 4);
    let call = rpc::Call { function: "test.test".to_string(), context: "c".to_string(), args: "{}".to_string() };
    let actions = handler.handle(Command::RpcCall(caller, call.clone())).actions;
    assert_eq!(actions, vec![Action::SendData(client1, Message::RpcCall(call.clone()))]);
    // Registered while the call runs: never tried for it.
    let late_comer = connect(&mut handler, 5);
    new_rpc(&mut handler, late_comer, "test.test", 15);
    // Gone while the call runs: passed over.
    disconnect(&mut handler, client2);
    let declined = rpc::Response { context: "c".to_string(), kind: rpc::ResponseKind::Last(rpc::Result::NotHandled) };
    let actions = handler.handle(Command::RpcResponse(declined.clone())).actions;
    assert_eq!(actions, vec![Action::SendData(client3, Message::RpcCall(call.clone()))]);
    let actions = handler.handle(Command::RpcResponse(declined.clone())).actions;
    assert_eq!(actions, vec![Action::SendData(caller, Message::RpcResponse(declined))]);
    // A new call sees the implementations there are now.
    let call2 = rpc::Call { function: "test.test".to_string(), context: "d".to_string(), args: "{}".to_string() };
    let actions = handler.handle(Command::RpcCall(caller, call2.clone())).actions;
    assert_eq!(actions, vec![Action::SendData(client1, Message::RpcCall(call2.clone()))]);
    let declined2 = rpc::Response { context: "d".to_string(), kind: rpc::ResponseKind::Last(rpc::Result::NotHandled) };
    let actions = handler.handle(Command::RpcResponse(declined2)).actions;
    assert_eq!(actions, vec![Action::SendData(late_comer, Message::RpcCall(call2))]);
}
