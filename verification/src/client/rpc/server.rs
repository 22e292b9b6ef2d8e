//! A call that this client serves: whether it may still answer, and the
//! messages that carry its answers.
use vstd::prelude::*;
use crate::client::rpc::client;
use crate::client::rpc_loop;
use crate::ipc::Message;
use crate::rpc;

verus! {

/// Where a served call stands.
#[derive(Debug, Clone, Copy, PartialEq, Eq, Structural)]
pub enum ContextState {
    Alive,
    Finished,
    Cancelled,
}

/// Why a served call can no longer answer or call out.
#[derive(Debug, Clone, Copy, PartialEq, Eq, Structural)]
pub enum Error {
    Finished,
    Cancelled,
    Disconnected,
}

/// What the client tells a call that it serves.
#[derive(Debug, Clone, Copy, PartialEq, Eq, Structural)]
pub enum Command {
    Cancel,
}

/// What a look at the call's command channel found.
#[derive(Debug, Clone, Copy, PartialEq, Eq, Structural)]
pub enum Poll {
    /// Nothing new.
    Empty,
    /// A command.
    Received(Command),
    /// The channel is gone: the client is shutting down.
    Disconnected,
}

/// The state after a look at the command channel: a cancellation, or the
/// loss of the channel, cancels the call.
pub open spec fn polled(state: ContextState, poll: Poll) -> ContextState {
    match poll {
        Poll::Empty => state,
        Poll::Received(Command::Cancel) => ContextState::Cancelled,
        Poll::Disconnected => ContextState::Cancelled,
    }
}

/// Whether a call in `state` may still act, and why not.
pub open spec fn liveness(state: ContextState) -> Result<(), Error> {
    match state {
        ContextState::Alive => Ok(()),
        ContextState::Finished => Err(Error::Finished),
        ContextState::Cancelled => Err(Error::Cancelled),
    }
}

/// The message that answers the call named `context`.
pub open spec fn response_message(context: String, kind: rpc::ResponseKind) -> Message {
    Message::RpcResponse(rpc::Response { context, kind })
}

/// A call that this client serves.
pub struct Context {
    context: String,
    state: ContextState,
}

impl Context {
    /// The context that names the call.
    pub closed spec fn context_spec(&self) -> String {
        self.context
    }

    /// Where the call stands.
    pub closed spec fn state_spec(&self) -> ContextState {
        self.state
    }

    /// A call under `context` that may still answer.
    pub fn new(context: String) -> (ctx: Self)
        ensures
            ctx.context_spec() == context,
            ctx.state_spec() == ContextState::Alive,
    {
        Context { context, state: ContextState::Alive }
    }

    fn update_state(&mut self, poll: Poll)
        ensures
            final(self).state_spec() == polled(old(self).state_spec(), poll),
            final(self).context_spec() == old(self).context_spec(),
    {
        match poll {
            Poll::Empty => {},
            Poll::Received(Command::Cancel) => self.state = ContextState::Cancelled,
            Poll::Disconnected => self.state = ContextState::Cancelled,
        }
    }

    fn check_liveness(&mut self, poll: Poll) -> (res: Result<(), Error>)
        ensures
            final(self).state_spec() == polled(old(self).state_spec(), poll),
            final(self).context_spec() == old(self).context_spec(),
            res == liveness(final(self).state_spec()),
    {
        self.update_state(poll);
        match self.state {
            ContextState::Alive => Ok(()),
            ContextState::Finished => Err(Error::Finished),
            ContextState::Cancelled => Err(Error::Cancelled),
        }
    }

    /// Starts a call of `function` with the JSON `args` on behalf of this
    /// call, if it may still act after `poll`.
    pub fn call(&mut self, poll: Poll, function: &str, args: String) -> (res: Result<
        (client::Context, rpc_loop::Command),
        Error,
    >)
        ensures
            final(self).state_spec() == polled(old(self).state_spec(), poll),
            final(self).context_spec() == old(self).context_spec(),
            res is Err <==> final(self).state_spec() != ContextState::Alive,
            res matches Err(e) ==> Err::<(), Error>(e) == liveness(final(self).state_spec()),
            res matches Ok(started) ==> {
                &&& started.0.result_spec() is None
                &&& started.1 matches rpc_loop::Command::OutgoingCall(c, m) && c@ == started.0.context_spec()
                    && client::is_call_message(m, c, function@, args)
            },
    {
        match self.check_liveness(poll) {
            Ok(()) => Ok(client::Context::new(function, args)),
            Err(e) => Err(e),
        }
    }

    /// The message that hands on a partial JSON `value`, if the call may
    /// still act after `poll`.
    pub fn update(&mut self, poll: Poll, value: String) -> (res: Result<Message, Error>)
        ensures
            final(self).state_spec() == polled(old(self).state_spec(), poll),
            final(self).context_spec() == old(self).context_spec(),
            res == (match liveness(final(self).state_spec()) {
                Ok(()) => Ok(response_message(old(self).context_spec(), rpc::ResponseKind::Partial(value))),
                Err(e) => Err(e),
            }),
    {
        match self.check_liveness(poll) {
            Ok(()) => Ok(Message::RpcResponse(
                rpc::Response { context: self.context.clone(), kind: rpc::ResponseKind::Partial(value) },
            )),
            Err(e) => Err(e),
        }
    }

    /// Whether the call is cancelled, after `poll`.
    pub fn cancelled(&mut self, poll: Poll) -> (res: bool)
        ensures
            final(self).state_spec() == polled(old(self).state_spec(), poll),
            final(self).context_spec() == old(self).context_spec(),
            res == (final(self).state_spec() == ContextState::Cancelled),
    {
        self.update_state(poll);
        self.state == ContextState::Cancelled
    }

    /// The message that gives the final `result`, if the call may still act
    /// after `poll`; the call is finished then.
    pub fn finish(&mut self, poll: Poll, result: rpc::Result) -> (res: Result<Message, Error>)
        ensures
            final(self).context_spec() == old(self).context_spec(),
            res == (match liveness(polled(old(self).state_spec(), poll)) {
                Ok(()) => Ok(response_message(old(self).context_spec(), rpc::ResponseKind::Last(result))),
                Err(e) => Err(e),
            }),
            final(self).state_spec() == (if res is Ok {
                ContextState::Finished
            } else {
                polled(old(self).state_spec(), poll)
            }),
    {
        match self.check_liveness(poll) {
            Ok(()) => {
                self.state = ContextState::Finished;
                Ok(Message::RpcResponse(
                    rpc::Response { context: self.context.clone(), kind: rpc::ResponseKind::Last(result) },
                ))
            },
            Err(e) => Err(e),
        }
    }

    /// Whether the call may still act: dropping it then is a mistake of the
    /// code that serves it, which neither finished it nor saw it cancelled.
    pub fn is_alive(&self) -> (res: bool)
        ensures
            res == (self.state_spec() == ContextState::Alive),
    {
        self.state == ContextState::Alive
    }
}

} // verus!
