//! The decisions of a client's routing loop: which served function a call
//! goes to, which served call a cancellation stops, which answers reach a
//! call that this client made, and what goes out to the switchboard.
use vstd::prelude::*;
use crate::ipc::Message;
use crate::rpc;
use crate::str_map::StrMap;

verus! {

/// A function that this client offers from now on, under its name.
pub struct NewRpc<R> {
    name: String,
    rpc: R,
}

impl<R> NewRpc<R> {
    /// The name of the function.
    pub closed spec fn name_spec(&self) -> Seq<char> {
        self.name@
    }

    /// What serves the function.
    pub closed spec fn rpc_spec(&self) -> R {
        self.rpc
    }

    /// The function `name`, served by `rpc`.
    pub fn new(name: String, rpc: R) -> (new_rpc: Self)
        ensures
            new_rpc.name_spec() == name@,
            new_rpc.rpc_spec() == rpc,
    {
        NewRpc { name, rpc }
    }
}

/// What the routing loop is told.
#[derive(Debug, Clone, PartialEq, Eq)]
pub enum Command {
    /// Stop.
    Quit,
    /// A message came from the switchboard.
    Received(Message),
    /// This client makes a call under the given context; the message starts it.
    OutgoingCall(String, Message),
    /// This client cancels the call that it made under the given context.
    CancelOutgoingRpc(String),
    /// Send the message to the switchboard.
    Send(Message),
}

/// What the routing loop does about a command.
#[derive(Debug, Clone, PartialEq, Eq)]
pub enum Step {
    /// Stop the loop.
    Quit,
    /// Nothing.
    Idle,
    /// Serve the call with the function that it names.
    Invoke(rpc::Call),
    /// Tell the served call under this context that it is cancelled.
    Cancel(String),
    /// Hand the answer to the call that this client made under its context.
    Deliver(rpc::Response),
    /// Send the message to the switchboard.
    Send(Message),
}

/// The routing loop's state: the functions that this client serves, the
/// served calls that are running, and the calls that this client made.
pub struct RpcLoop<R> {
    remote_procedures: StrMap<R>,
    running_rpc_calls: StrMap<()>,
    running_function_calls: StrMap<()>,
}

impl<R> RpcLoop<R> {
    pub closed spec fn wf(&self) -> bool {
        &&& self.remote_procedures.wf()
        &&& self.running_rpc_calls.wf()
        &&& self.running_function_calls.wf()
    }

    /// The functions that this client serves, by name.
    pub closed spec fn procedures(&self) -> Map<Seq<char>, R> {
        self.remote_procedures.view()
    }

    /// The contexts of the served calls that are running.
    pub closed spec fn serving(&self) -> Set<Seq<char>> {
        self.running_rpc_calls.view().dom()
    }

    /// The contexts of the calls that this client made.
    pub closed spec fn calling(&self) -> Set<Seq<char>> {
        self.running_function_calls.view().dom()
    }

    /// A loop that serves nothing and knows of no call.
    pub fn new() -> (l: Self)
        ensures
            l.wf(),
            l.procedures() == Map::<Seq<char>, R>::empty(),
            l.serving() == Set::<Seq<char>>::empty(),
            l.calling() == Set::<Seq<char>>::empty(),
    {
        RpcLoop { remote_procedures: StrMap::new(), running_rpc_calls: StrMap::new(), running_function_calls: StrMap::new() }
    }

    /// Serves the new function from now on, in place of any function of the
    /// same name.
    pub fn register(&mut self, new_rpc: NewRpc<R>)
        requires
            old(self).wf(),
        ensures
            final(self).wf(),
            final(self).procedures() == old(self).procedures().insert(new_rpc.name_spec(), new_rpc.rpc_spec()),
            final(self).serving() == old(self).serving(),
            final(self).calling() == old(self).calling(),
    {
        self.remote_procedures.insert(new_rpc.name, new_rpc.rpc);
    }

    /// What serves the function `name`, if this client serves it.
    pub fn procedure(&self, name: &String) -> (rpc: Option<&R>)
        requires
            self.wf(),
        ensures
            rpc matches Some(r) ==> self.procedures().dom().contains(name@) && *r == self.procedures()[name@],
            rpc is None ==> !self.procedures().dom().contains(name@),
    {
        self.remote_procedures.get(name)
    }

    /// Decides what to do about `command`, and keeps track of the calls.
    pub fn handle_command(&mut self, command: Command) -> (step: Step)
        requires
            old(self).wf(),
        ensures
            final(self).wf(),
            final(self).procedures() == old(self).procedures(),
            match command {
                Command::Quit => step == Step::Quit && final(self).serving() == old(self).serving()
                    && final(self).calling() == old(self).calling(),
                Command::Received(Message::RpcCall(call)) => {
                    &&& final(self).calling() == old(self).calling()
                    &&& if old(self).procedures().dom().contains(call.function@) {
                        step == Step::Invoke(call) && final(self).serving() == old(self).serving().insert(
                            call.context@,
                        )
                    } else {
                        step == Step::Idle && final(self).serving() == old(self).serving()
                    }
                },
                Command::Received(Message::RpcCancel(cancel)) => {
                    &&& final(self).calling() == old(self).calling()
                    &&& if old(self).serving().contains(cancel.context@) {
                        step == Step::Cancel(cancel.context) && final(self).serving() == old(self).serving().remove(cancel.context@)
                    } else {
                        step == Step::Idle && final(self).serving() == old(self).serving()
                    }
                },
                Command::Received(Message::RpcResponse(response)) => {
                    &&& final(self).serving() == old(self).serving()
                    &&& final(self).calling() == old(self).calling()
                    &&& step == (if old(self).calling().contains(response.context@) {
                        Step::Deliver(response)
                    } else {
                        Step::Idle
                    })
                },
                Command::OutgoingCall(context, message) => step == Step::Send(message) && final(self).serving()
                    == old(self).serving() && final(self).calling() == old(self).calling().insert(context@),
                Command::CancelOutgoingRpc(context) => step == Step::Send(
                    Message::RpcCancel(rpc::Cancel { context }),
                ) && final(self).serving() == old(self).serving() && final(self).calling() == old(self).calling(),
                Command::Send(message) => step == Step::Send(message) && final(self).serving() == old(self).serving() && final(self).calling() == old(self).calling(),
            },
    {
        match command {
            Command::Quit => Step::Quit,
            Command::Received(message) => match message {
                Message::RpcCall(call) => {
                    if self.remote_procedures.contains_key(&call.function) {
                        self.running_rpc_calls.insert(call.context.clone(), ());
                        Step::Invoke(call)
                    } else {
                        Step::Idle
                    }
                },
                Message::RpcCancel(cancel) => {
                    match self.running_rpc_calls.remove(&cancel.context) {
                        Some(_) => Step::Cancel(cancel.context),
                        None => Step::Idle,
                    }
                },
                Message::RpcResponse(response) => {
                    if self.running_function_calls.contains_key(&response.context) {
                        Step::Deliver(response)
                    } else {
                        Step::Idle
                    }
                },
            },
            Command::OutgoingCall(context, message) => {
                self.running_function_calls.insert(context, ());
                Step::Send(message)
            },
            Command::CancelOutgoingRpc(context) => Step::Send(Message::RpcCancel(rpc::Cancel { context })),
            Command::Send(message) => Step::Send(message),
        }
    }
}

} // verus!
