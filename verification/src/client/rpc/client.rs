//! A call that this client made, as its answers come in.
use vstd::prelude::*;
use crate::client::rpc_loop::Command;
use crate::ids::new_id;
use crate::ipc::Message;
use crate::rpc;

verus! {

/// A call that this client made: the context that names it, and its final
/// result once that came.
pub struct Context {
    context: String,
    result: Option<rpc::Result>,
}

/// `message` starts a call of the function named `function` with `args`
/// under `context`.
pub open spec fn is_call_message(message: Message, context: String, function: Seq<char>, args: String) -> bool {
    message matches Message::RpcCall(call) && call.function@ == function && call.context == context && call.args == args
}

impl Context {
    /// The context that names the call.
    pub closed spec fn context_spec(&self) -> Seq<char> {
        self.context@
    }

    /// The final result, once it came and until it is taken.
    pub closed spec fn result_spec(&self) -> Option<rpc::Result> {
        self.result
    }

    /// Starts a call of `function` with the JSON `args` under a fresh random
    /// context; hands back the call and the command that sends it out.
    pub fn new(function: &str, args: String) -> (res: (Self, Command))
        ensures
            res.0.result_spec() is None,
            res.0.context_spec().len() == 36,
            res.1 matches Command::OutgoingCall(c, m) && c@ == res.0.context_spec() && is_call_message(
                m,
                c,
                function@,
                args,
            ),
    {
        Self::with_context(new_id(), function, args)
    }

    /// Starts a call of `function` with the JSON `args` under `context`;
    /// hands back the call and the command that sends it out.
    pub fn with_context(context: String, function: &str, args: String) -> (res: (Self, Command))
        ensures
            res.0.result_spec() is None,
            res.0.context_spec() == context@,
            res.1 matches Command::OutgoingCall(c, m) && c == context && is_call_message(m, context, function@, args),
    {
        let message = Message::RpcCall(rpc::Call { function: function.to_owned(), context: context.clone(), args });
        (Context { context: context.clone(), result: None }, Command::OutgoingCall(context, message))
    }

    /// Takes in the next answer of a call that has no result yet: a partial
    /// value is handed on, the last answer is kept as the result.
    pub fn receive(&mut self, kind: rpc::ResponseKind) -> (value: Option<String>)
        requires
            old(self).result_spec() is None,
        ensures
            final(self).context_spec() == old(self).context_spec(),
            match kind {
                rpc::ResponseKind::Partial(v) => value == Some(v) && final(self).result_spec() is None,
                rpc::ResponseKind::Last(r) => value is None && final(self).result_spec() == Some(r),
            },
    {
        match kind {
            rpc::ResponseKind::Partial(v) => Some(v),
            rpc::ResponseKind::Last(r) => {
                self.result = Some(r);
                None
            },
        }
    }

    /// Whether the final result came.
    pub fn done(&self) -> (res: bool)
        ensures
            res == self.result_spec() is Some,
    {
        self.result.is_some()
    }

    /// Hands out the final result, if it came, and forgets it.
    pub fn take_result(&mut self) -> (result: Option<rpc::Result>)
        ensures
            result == old(self).result_spec(),
            final(self).result_spec() is None,
            final(self).context_spec() == old(self).context_spec(),
    {
        self.result.take()
    }

    /// The command that cancels the call.
    pub fn cancel(self) -> (cmd: Command)
        ensures
            cmd matches Command::CancelOutgoingRpc(c) && c@ == self.context_spec(),
    {
        Command::CancelOutgoingRpc(self.context)
    }
}

} // verus!
