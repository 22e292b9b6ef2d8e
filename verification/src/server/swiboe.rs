//! The switchboard's decisions: for each command it receives, how its state
//! changes and which messages go out to which clients.
use vstd::prelude::*;
use crate::ipc::Message;
use crate::rpc;
use crate::server::api_table::{ApiInfo, ApiTable, deregistered, infos_of, insert_by_priority};
use crate::server::ipc_bridge::ClientId;
use crate::server::plugin_core::{CorePlugin, CoreRequest, is_core, is_core_function, is_known_core, is_known_core_function};
use crate::spinner;
use crate::str_map::StrMap;

verus! {

/// What the switchboard is told: by its clients, through the IPC bridge, and
/// by itself.
#[derive(Debug, Clone, PartialEq, Eq)]
pub enum Command {
    Quit,
    NewRpc(ClientId, String, u16),
    RpcCall(ClientId, rpc::Call),
    RpcResponse(rpc::Response),
    RpcCancel(rpc::Cancel),
    ClientConnected(ClientId),
    ClientDisconnected(ClientId),
    /// A message could not be delivered to the client.
    SendDataFailed(ClientId, Message),
}

/// A call on its way through the implementations of its function: who made
/// it, the call itself, the implementations that there were when it arrived,
/// and the position among them of the implementation that has it now.
#[derive(Debug, Clone, PartialEq, Eq)]
pub struct RunningRpc {
    pub caller: ClientId,
    pub rpc_call: rpc::Call,
    pub last_index: usize,
    pub infos: Vec<ApiInfo>,
}

/// A running call, as the contracts see it.
pub ghost struct RunningCall {
    pub caller: ClientId,
    pub rpc_call: rpc::Call,
    pub last_index: usize,
    pub infos: Seq<ApiInfo>,
}

impl View for RunningRpc {
    type V = RunningCall;

    open spec fn view(&self) -> RunningCall {
        RunningCall { caller: self.caller, rpc_call: self.rpc_call, last_index: self.last_index, infos: self.infos@ }
    }
}

impl RunningRpc {
    /// A copy of this call.
    pub fn duplicate(&self) -> (res: RunningRpc)
        ensures
            res@ == self@,
    {
        RunningRpc {
            caller: self.caller,
            rpc_call: self.rpc_call.duplicate(),
            last_index: self.last_index,
            infos: self.infos.clone(),
        }
    }
}

/// What the switchboard asks its surroundings to do.
#[derive(Debug, Clone, PartialEq, Eq)]
pub enum Action {
    /// Deliver the message to the client.
    SendData(ClientId, Message),
    /// Carry out what a core function asked for.
    Core(CoreRequest),
}

/// The switchboard's answer to a command: whether it goes on, and what has to
/// be done, in order.
pub struct Reaction {
    pub control: spinner::Command,
    pub actions: Vec<Action>,
}

/// The reply to a call of a function that nobody offers.
pub open spec fn unknown_rpc_reply(context: String) -> Message {
    Message::RpcResponse(rpc::Response {
        context,
        kind: rpc::ResponseKind::Last(rpc::Result::Failure(rpc::Error { kind: rpc::ErrorKind::UnknownRpc, details: None })),
    })
}

/// Whether `info` still implements the function `name`.
pub open spec fn still_offered(functions: Map<Seq<char>, Seq<ApiInfo>>, name: Seq<char>, info: ApiInfo) -> bool {
    infos_of(functions, name).contains(info)
}

/// The first position, from `j` on, of an implementation in `infos` that
/// still implements `name`; the length of `infos` if there is none.
pub open spec fn next_from(functions: Map<Seq<char>, Seq<ApiInfo>>, name: Seq<char>, infos: Seq<ApiInfo>, j: int) -> int
    decreases infos.len() - j,
{
    if j >= infos.len() {
        infos.len() as int
    } else if still_offered(functions, name, infos[j]) {
        j
    } else {
        next_from(functions, name, infos, j + 1)
    }
}

/// The running calls and the messages after a response arrives. A partial
/// value goes on to the caller. When the implementation that has the call
/// does not handle it, the call goes to the next of the implementations that
/// there were when it arrived, skipping those that are gone since; when none
/// is left, the caller is told that nobody handled it and the call is over.
/// A final success or failure goes to the caller and ends the call.
pub open spec fn response_outcome(
    functions: Map<Seq<char>, Seq<ApiInfo>>,
    running: Map<Seq<char>, RunningCall>,
    response: rpc::Response,
) -> (Map<Seq<char>, RunningCall>, Seq<Action>) {
    let key = response.context@;
    if !running.dom().contains(key) {
        (running, Seq::empty())
    } else {
        let r = running[key];
        match response.kind {
            rpc::ResponseKind::Partial(value) => (
                running,
                seq![Action::SendData(r.caller, Message::RpcResponse(rpc::Response {
                    context: r.rpc_call.context,
                    kind: rpc::ResponseKind::Partial(value),
                }))],
            ),
            rpc::ResponseKind::Last(result) => match result {
                rpc::Result::NotHandled => {
                    let next = next_from(functions, r.rpc_call.function@, r.infos, r.last_index + 1);
                    if next < r.infos.len() {
                        (
                            running.insert(key, RunningCall { last_index: next as usize, ..r }),
                            seq![Action::SendData(r.infos[next].client_id, Message::RpcCall(r.rpc_call))],
                        )
                    } else {
                        (
                            running.remove(key),
                            seq![Action::SendData(r.caller, Message::RpcResponse(rpc::Response {
                                context: r.rpc_call.context,
                                kind: rpc::ResponseKind::Last(rpc::Result::NotHandled),
                            }))],
                        )
                    }
                },
                _ => (
                    running.remove(key),
                    seq![Action::SendData(r.caller, Message::RpcResponse(rpc::Response {
                        context: r.rpc_call.context,
                        kind: rpc::ResponseKind::Last(result),
                    }))],
                ),
            },
        }
    }
}

/// The running calls and the messages after a call of a function that is not
/// a core function: it goes to the first implementation, and the
/// implementations that there are now are the ones that it will be tried on.
pub open spec fn call_outcome(
    functions: Map<Seq<char>, Seq<ApiInfo>>,
    running: Map<Seq<char>, RunningCall>,
    caller: ClientId,
    rpc_call: rpc::Call,
) -> (Map<Seq<char>, RunningCall>, Seq<Action>) {
    if functions.dom().contains(rpc_call.function@) {
        (
            running.insert(
                rpc_call.context@,
                RunningCall { caller, rpc_call, last_index: 0, infos: functions[rpc_call.function@] },
            ),
            seq![Action::SendData(functions[rpc_call.function@][0].client_id, Message::RpcCall(rpc_call))],
        )
    } else {
        (running, seq![Action::SendData(caller, unknown_rpc_reply(rpc_call.context))])
    }
}

/// The running calls and the messages after a cancellation arrives: the
/// implementation that has the call is told, and the call is over.
pub open spec fn cancel_outcome(
    running: Map<Seq<char>, RunningCall>,
    cancel: rpc::Cancel,
) -> (Map<Seq<char>, RunningCall>, Seq<Action>) {
    let key = cancel.context@;
    if !running.dom().contains(key) {
        (running, Seq::empty())
    } else {
        let r = running[key];
        (
            running.remove(key),
            seq![Action::SendData(r.infos[r.last_index as int].client_id, Message::RpcCancel(cancel))],
        )
    }
}

/// The running calls once `client_id` is gone: those it made are dropped.
pub open spec fn without_caller(running: Map<Seq<char>, RunningCall>, client_id: ClientId) -> Map<Seq<char>, RunningCall> {
    Map::new(
        |k: Seq<char>| running.dom().contains(k) && running[k].caller != client_id,
        |k: Seq<char>| running[k],
    )
}

/// The response that stands in for a call that could not be delivered.
pub open spec fn not_handled_response(context: String) -> rpc::Response {
    rpc::Response { context, kind: rpc::ResponseKind::Last(rpc::Result::NotHandled) }
}

/// What a call of a known core function asks of the switchboard.
pub open spec fn core_request_of(caller: ClientId, rpc_call: rpc::Call) -> CoreRequest {
    if rpc_call.function@ == "core.exit"@ { CoreRequest::Exit } else { CoreRequest::NewRpc(caller, rpc_call.args) }
}

/// Whether `action` hands the caller a bare success for the call.
pub open spec fn is_success_reply(action: Action, caller: ClientId, rpc_call: rpc::Call) -> bool {
    match action {
        Action::SendData(to, Message::RpcResponse(response)) => {
            &&& to == caller
            &&& response.context == rpc_call.context
            &&& response.kind matches rpc::ResponseKind::Last(rpc::Result::Success(v)) && v@ == rpc::json_null()
        },
        _ => false,
    }
}

/// The switchboard's state.
pub struct Handler {
    functions: ApiTable,
    clients: Vec<ClientId>,
    running_rpcs: StrMap<RunningRpc>,
    plugin_core: CorePlugin,
}

impl Handler {
    pub closed spec fn wf(&self) -> bool {
        &&& self.functions.wf()
        &&& self.running_rpcs.wf()
        &&& self.clients@.no_duplicates()
        &&& forall|k: Seq<char>| #[trigger] self.running_rpcs.view().dom().contains(k) ==> {
            &&& self.running_rpcs.view()[k].rpc_call.context@ == k
            &&& self.running_rpcs.view()[k].last_index < self.running_rpcs.view()[k].infos@.len()
        }
    }

    /// For each function name, its implementations in the order they are tried.
    pub closed spec fn functions(&self) -> Map<Seq<char>, Seq<ApiInfo>> {
        self.functions.view()
    }

    /// The connected clients.
    pub closed spec fn clients(&self) -> Set<ClientId> {
        self.clients@.to_set()
    }

    /// The calls under way, by context.
    pub closed spec fn running(&self) -> Map<Seq<char>, RunningCall> {
        self.running_rpcs.view().map_values(|r: RunningRpc| r@)
    }

    /// Whether the command can be handled: a core function that is called must
    /// be one that the switchboard implements.
    pub open spec fn admissible(&self, command: Command) -> bool {
        match command {
            Command::RpcCall(_, rpc_call) => is_core_function(rpc_call.function@) ==> is_known_core_function(rpc_call.function@),
            _ => true,
        }
    }

    pub fn new() -> (handler: Self)
        ensures
            handler.wf(),
            handler.functions() == Map::<Seq<char>, Seq<ApiInfo>>::empty(),
            handler.clients() == Set::<ClientId>::empty(),
            handler.running() == Map::<Seq<char>, RunningCall>::empty(),
    {
        let h = Handler {
            functions: ApiTable::new(),
            clients: Vec::new(),
            running_rpcs: StrMap::new(),
            plugin_core: CorePlugin::new(),
        };
        assert(h.clients@.to_set() =~= Set::<ClientId>::empty());
        h
    }

    fn on_rpc_response(&mut self, response: rpc::Response) -> (actions: Vec<Action>)
        requires
            old(self).wf(),
        ensures
            final(self).wf(),
            final(self).functions() == old(self).functions(),
            final(self).clients() == old(self).clients(),
            (final(self).running(), actions@) == response_outcome(old(self).functions(), old(self).running(), response),
    {
        let ghost resp = response;
        let ghost old_rpcs = self.running_rpcs.view();
        let key = response.context;
        let r = match self.running_rpcs.get(&key) {
            Some(r) => r.duplicate(),
            None => {
                return Vec::new();
            },
        };
        proof {
            assert(self.running().dom().contains(key@));
            assert(self.running()[key@] == r@);
            assert(r.last_index < r.infos@.len());
        }
        match response.kind {
            rpc::ResponseKind::Partial(value) => {
                let mut actions = Vec::new();
                actions.push(Action::SendData(r.caller, Message::RpcResponse(rpc::Response {
                    context: r.rpc_call.context,
                    kind: rpc::ResponseKind::Partial(value),
                })));
                actions
            },
            rpc::ResponseKind::Last(result) => match result {
                rpc::Result::NotHandled => {
                    let ghost fs = self.functions();
                    let ghost name = r.rpc_call.function@;
                    let ghost start = r.last_index + 1;
                    let len = r.infos.len();
                    proof {
                        assert(r.last_index < len);
                    }
                    let mut j: usize = r.last_index + 1;
                    let mut found = false;
                    while !found && j < r.infos.len()
                        invariant
                            self.wf(),
                            fs == self.functions(),
                            name == r.rpc_call.function@,
                            start == r.last_index + 1,
                            r.last_index < r.infos@.len(),
                            start <= j <= r.infos@.len(),
                            next_from(fs, name, r.infos@, start) == next_from(fs, name, r.infos@, j as int),
                            found ==> j < r.infos@.len() && still_offered(fs, name, r.infos@[j as int]),
                        decreases r.infos@.len() - j + (if found { 0int } else { 1int }),
                    {
                        if self.functions.offers(&r.rpc_call.function, &r.infos[j]) {
                            found = true;
                        } else {
                            j = j + 1;
                        }
                    }
                    proof {
                        assert(next_from(fs, name, r.infos@, start) == j);
                    }
                    let mut actions = Vec::new();
                    if j < r.infos.len() {
                        let target = r.infos[j];
                        let updated = RunningRpc {
                            caller: r.caller,
                            rpc_call: r.rpc_call.duplicate(),
                            last_index: j,
                            infos: r.infos.clone(),
                        };
                        let ghost u = updated@;
                        self.running_rpcs.insert(key, updated);
                        proof {
                            assert(u == RunningCall { last_index: j, ..r@ });
                            assert(self.running() =~= old(self).running().insert(resp.context@, u));
                        }
                        actions.push(Action::SendData(target.client_id, Message::RpcCall(r.rpc_call)));
                    } else {
                        self.running_rpcs.remove(&key);
                        proof {
                            assert(self.running() =~= old(self).running().remove(resp.context@));
                        }
                        actions.push(Action::SendData(r.caller, Message::RpcResponse(rpc::Response {
                            context: r.rpc_call.context,
                            kind: rpc::ResponseKind::Last(rpc::Result::NotHandled),
                        })));
                    }
                    proof {
                        assert(actions@ == response_outcome(old(self).functions(), old(self).running(), resp).1);
                    }
                    actions
                },
                other => {
                    self.running_rpcs.remove(&key);
                    proof {
                        assert(self.running() =~= old(self).running().remove(resp.context@));
                    }
                    let mut actions = Vec::new();
                    actions.push(Action::SendData(r.caller, Message::RpcResponse(rpc::Response {
                        context: r.rpc_call.context,
                        kind: rpc::ResponseKind::Last(other),
                    })));
                    actions
                },
            },
        }
    }

    fn on_rpc_call(&mut self, caller: ClientId, rpc_call: rpc::Call) -> (actions: Vec<Action>)
        requires
            old(self).wf(),
        ensures
            final(self).wf(),
            final(self).functions() == old(self).functions(),
            final(self).clients() == old(self).clients(),
            (final(self).running(), actions@) == call_outcome(old(self).functions(), old(self).running(), caller, rpc_call),
    {
        proof {
            self.functions.lemma_wf();
        }
        let mut actions = Vec::new();
        let infos = self.functions.implementations(&rpc_call.function);
        if infos.len() > 0 {
            let first = infos[0];
            let running = RunningRpc { caller, rpc_call: rpc_call.duplicate(), last_index: 0, infos };
            let ghost u = running@;
            self.running_rpcs.insert(rpc_call.context.clone(), running);
            proof {
                assert(self.running() =~= old(self).running().insert(rpc_call.context@, u));
            }
            actions.push(Action::SendData(first.client_id, Message::RpcCall(rpc_call)));
        } else {
            actions.push(Action::SendData(caller, Message::RpcResponse(rpc::Response {
                context: rpc_call.context,
                kind: rpc::ResponseKind::Last(rpc::Result::Failure(rpc::Error {
                    kind: rpc::ErrorKind::UnknownRpc,
                    details: None,
                })),
            })));
        }
        actions
    }

    fn on_rpc_cancel(&mut self, cancel: rpc::Cancel) -> (actions: Vec<Action>)
        requires
            old(self).wf(),
        ensures
            final(self).wf(),
            final(self).functions() == old(self).functions(),
            final(self).clients() == old(self).clients(),
            (final(self).running(), actions@) == cancel_outcome(old(self).running(), cancel),
    {
        let mut actions = Vec::new();
        let r = match self.running_rpcs.remove(&cancel.context) {
            Some(r) => r,
            None => {
                proof {
                    assert(self.running() =~= old(self).running());
                }
                return actions;
            },
        };
        proof {
            assert(self.running() =~= old(self).running().remove(cancel.context@));
        }
        let target = r.infos[r.last_index];
        actions.push(Action::SendData(target.client_id, Message::RpcCancel(cancel)));
        actions
    }

    #[verifier::loop_isolation(false)]
    fn on_client_connected(&mut self, client_id: ClientId)
        requires
            old(self).wf(),
        ensures
            final(self).wf(),
            final(self).functions() == old(self).functions(),
            final(self).running() == old(self).running(),
            final(self).clients() == old(self).clients().insert(client_id),
    {
        let mut i: usize = 0;
        while i < self.clients.len()
            invariant
                i <= self.clients@.len(),
                forall|j: int| 0 <= j < i ==> self.clients@[j] != client_id,
            decreases self.clients@.len() - i,
        {
            if self.clients[i] == client_id {
                proof {
                    assert(self.clients@.to_set().insert(client_id) =~= self.clients@.to_set());
                }
                return;
            }
            i = i + 1;
        }
        self.clients.push(client_id);
        proof {
            old(self).clients@.lemma_push_to_set_commute(client_id);
            assert forall|a: int, b: int| 0 <= a < b < self.clients@.len() implies self.clients@[a] != self.clients@[b] by {
                if b == self.clients@.len() - 1 { assert(old(self).clients@[a] != client_id); }
            }
        }
    }

    #[verifier::loop_isolation(false)]
    fn remove_client(&mut self, client_id: ClientId)
        requires
            old(self).wf(),
        ensures
            final(self).wf(),
            final(self).functions() == old(self).functions(),
            final(self).running() == old(self).running(),
            final(self).clients() == old(self).clients().remove(client_id),
    {
        let mut i: usize = 0;
        while i < self.clients.len()
            invariant
                self.wf(),
                self.clients@ == old(self).clients@,
                self.functions() == old(self).functions(),
                self.running() == old(self).running(),
                i <= self.clients@.len(),
                forall|j: int| 0 <= j < i ==> self.clients@[j] != client_id,
            decreases self.clients@.len() - i,
        {
            if self.clients[i] == client_id {
                let ghost before = self.clients@;
                proof { assert(before.no_duplicates()); }
                self.clients.remove(i);
                proof {
                    let after = self.clients@;
                    assert forall|x: ClientId| #![auto] after.to_set().contains(x) <==> before.to_set().remove(client_id).contains(x) by {
                        if after.contains(x) {
                            let j = choose|j: int| 0 <= j < after.len() && after[j] == x;
                            if j < i {
                                assert(before[j] == x);
                                assert(x != client_id) by { assert(before[i as int] == client_id); }
                            } else {
                                assert(before[j + 1] == x);
                                assert(j + 1 != i);
                                assert(x != client_id) by { assert(before[i as int] == client_id); }
                            }
                            assert(before.contains(x));
                        }
                        if before.contains(x) && x != client_id {
                            let j = choose|j: int| 0 <= j < before.len() && before[j] == x;
                            assert(j != i);
                            if j < i { assert(after[j] == x); } else { assert(after[j - 1] == x); }
                            assert(after.contains(x));
                        }
                    }
                    assert(after.to_set() =~= before.to_set().remove(client_id));
                    assert forall|a: int, b: int| 0 <= a < b < after.len() implies after[a] != after[b] by {
                        let aa = if a < i { a } else { a + 1 };
                        let bb = if b < i { b } else { b + 1 };
                        assert(after[a] == before[aa] && after[b] == before[bb]);
                    }
                    assert(self.wf());
                }
                return;
            }
            i = i + 1;
        }
        proof {
            assert(self.clients@.to_set().remove(client_id) =~= self.clients@.to_set());
        }
    }

    fn drop_calls_of(&mut self, client_id: ClientId)
        requires
            old(self).wf(),
        ensures
            final(self).wf(),
            final(self).functions() == old(self).functions(),
            final(self).clients() == old(self).clients(),
            final(self).running() == without_caller(old(self).running(), client_id),
    {
        let ghost old_running = self.running_rpcs.view();
        let ghost ks = self.running_rpcs.keys();
        proof { self.running_rpcs.lemma_keys(); }
        let mut kept: StrMap<RunningRpc> = StrMap::new();
        let n = self.running_rpcs.len();
        let mut i: usize = 0;
        while i < n
            invariant
                n == ks.len(),
                i <= n,
                self.wf(),
                self.running_rpcs.view() == old_running,
                ks == self.running_rpcs.keys(),
                ks.no_duplicates(),
                forall|k: Seq<char>| #[trigger] self.running_rpcs.view().dom().contains(k) <==> ks.contains(k),
                forall|j: int| 0 <= j < ks.len() ==> #[trigger] self.running_rpcs.view()[ks[j]] == self.running_rpcs.value_spec(j),
                kept.wf(),
                kept.view().map_values(|r: RunningRpc| r@) =~= Map::new(
                    |k: Seq<char>| ks.take(i as int).contains(k) && old_running.dom().contains(k) && old_running[k].caller != client_id,
                    |k: Seq<char>| old_running[k]@,
                ),
                forall|k: Seq<char>| #[trigger] kept.view().dom().contains(k) ==> {
                    &&& kept.view()[k].rpc_call.context@ == k
                    &&& kept.view()[k].last_index < kept.view()[k].infos@.len()
                },
            decreases n - i,
        {
            let key = self.running_rpcs.key_at(i);
            let r = self.running_rpcs.value_at(i);
            let ghost prev = kept.view();
            proof {
                assert(self.running_rpcs.view().dom().contains(ks[i as int]));
            }
            let ghost before = kept.view();
            if r.caller != client_id {
                let d = r.duplicate();
                proof {
                    assert(d@ == old_running[ks[i as int]]@);
                    assert(old_running[ks[i as int]].rpc_call.context@ == ks[i as int]);
                }
                kept.insert(key.clone(), d);
                proof {
                    assert(kept.view() == before.insert(ks[i as int], d));
                }
            }
            proof {
                let nk = ks[i as int];
                assert forall|k: Seq<char>| #[trigger] ks.take(i + 1).contains(k) <==> (ks.take(i as int).contains(k) || k == nk) by {
                    if ks.take(i + 1).contains(k) {
                        let j = choose|j: int| 0 <= j < i + 1 && #[trigger] ks.take(i + 1)[j] == k;
                        if j < i { assert(ks.take(i as int)[j] == k); }
                    }
                    if ks.take(i as int).contains(k) {
                        let j = choose|j: int| 0 <= j < i && #[trigger] ks.take(i as int)[j] == k;
                        assert(ks.take(i + 1)[j] == k);
                    }
                    if k == nk { assert(ks.take(i + 1)[i as int] == k); }
                }
                let target = Map::new(
                    |k: Seq<char>| ks.take(i + 1).contains(k) && old_running.dom().contains(k) && old_running[k].caller != client_id,
                    |k: Seq<char>| old_running[k]@,
                );
                let bm = before.map_values(|r: RunningRpc| r@);
                assert(!ks.take(i as int).contains(nk)) by {
                    if ks.take(i as int).contains(nk) {
                        let j = choose|j: int| 0 <= j < i && #[trigger] ks.take(i as int)[j] == nk;
                        assert(ks[j] == ks[i as int]);
                    }
                }
                assert forall|k: Seq<char>| kept.view().dom().contains(k) == target.dom().contains(k) by {
                    assert(bm.dom().contains(k) == before.dom().contains(k));
                }
                assert forall|k: Seq<char>| target.dom().contains(k) implies #[trigger] kept.view()[k]@ == target[k] by {
                    if k != nk {
                        assert(bm.dom().contains(k));
                        assert(bm[k] == before[k]@);
                    }
                }
                assert(kept.view().map_values(|r: RunningRpc| r@) =~= target);
            }
            i = i + 1;
        }
        proof {
            assert(ks.take(n as int) =~= ks);
            assert(kept.view().map_values(|r: RunningRpc| r@) =~= Map::new(
                |k: Seq<char>| old_running.dom().contains(k) && old_running[k].caller != client_id,
                |k: Seq<char>| old_running[k]@,
            ));
        }
        self.running_rpcs = kept;
        proof {
            assert(self.running() =~= without_caller(old(self).running(), client_id));
        }
    }

    /// Handles one command: updates the state and says what is to be done.
    pub fn handle(&mut self, command: Command) -> (reaction: Reaction)
        requires
            old(self).wf(),
            old(self).admissible(command),
        ensures
            final(self).wf(),
            command is Quit <==> reaction.control == spinner::Command::Quit,
            match command {
                Command::Quit => {
                    &&& reaction.actions@ == Seq::<Action>::empty()
                    &&& final(self).functions() == old(self).functions()
                    &&& final(self).clients() == old(self).clients()
                    &&& final(self).running() == old(self).running()
                },
                Command::NewRpc(client_id, name, priority) => {
                    &&& reaction.actions@ == Seq::<Action>::empty()
                    &&& final(self).functions() == old(self).functions().insert(
                        name@,
                        insert_by_priority(
                            infos_of(old(self).functions(), name@),
                            ApiInfo { client_id, priority },
                        ),
                    )
                    &&& final(self).clients() == old(self).clients()
                    &&& final(self).running() == old(self).running()
                },
                Command::RpcCall(caller, rpc_call) => {
                    &&& final(self).functions() == old(self).functions()
                    &&& final(self).clients() == old(self).clients()
                    &&& if is_core_function(rpc_call.function@) {
                        &&& final(self).running() == old(self).running()
                        &&& reaction.actions@.len() == 2
                        &&& reaction.actions@[0] == Action::Core(core_request_of(caller, rpc_call))
                        &&& is_success_reply(reaction.actions@[1], caller, rpc_call)
                    } else {
                        (final(self).running(), reaction.actions@)
                            == call_outcome(old(self).functions(), old(self).running(), caller, rpc_call)
                    }
                },
                Command::RpcResponse(response) => {
                    &&& final(self).functions() == old(self).functions()
                    &&& final(self).clients() == old(self).clients()
                    &&& (final(self).running(), reaction.actions@)
                        == response_outcome(old(self).functions(), old(self).running(), response)
                },
                Command::RpcCancel(cancel) => {
                    &&& final(self).functions() == old(self).functions()
                    &&& final(self).clients() == old(self).clients()
                    &&& (final(self).running(), reaction.actions@)
                        == cancel_outcome(old(self).running(), cancel)
                },
                Command::ClientConnected(client_id) => {
                    &&& reaction.actions@ == Seq::<Action>::empty()
                    &&& final(self).functions() == old(self).functions()
                    &&& final(self).clients() == old(self).clients().insert(client_id)
                    &&& final(self).running() == old(self).running()
                },
                Command::ClientDisconnected(client_id) => {
                    &&& reaction.actions@ == Seq::<Action>::empty()
                    &&& final(self).functions() == deregistered(old(self).functions(), client_id)
                    &&& final(self).clients() == old(self).clients().remove(client_id)
                    &&& final(self).running() == without_caller(old(self).running(), client_id)
                },
                Command::SendDataFailed(_, message) => {
                    &&& final(self).functions() == old(self).functions()
                    &&& final(self).clients() == old(self).clients()
                    &&& match message {
                        Message::RpcCall(rpc_call) => (final(self).running(), reaction.actions@)
                            == response_outcome(old(self).functions(), old(self).running(), not_handled_response(rpc_call.context)),
                        _ => {
                            &&& reaction.actions@ == Seq::<Action>::empty()
                            &&& final(self).running() == old(self).running()
                        },
                    }
                },
            },
    {
        match command {
            Command::Quit => Reaction { control: spinner::Command::Quit, actions: Vec::new() },
            Command::NewRpc(client_id, name, priority) => {
                self.functions.register(name, ApiInfo { client_id, priority });
                Reaction { control: spinner::Command::Continue, actions: Vec::new() }
            },
            Command::RpcCall(caller, rpc_call) => {
                if is_core(&rpc_call.function) {
                    let (result, request) = self.plugin_core.call(caller, &rpc_call);
                    let mut actions = Vec::new();
                    actions.push(Action::Core(request));
                    actions.push(Action::SendData(caller, Message::RpcResponse(rpc::Response {
                        context: rpc_call.context,
                        kind: rpc::ResponseKind::Last(result),
                    })));
                    Reaction { control: spinner::Command::Continue, actions }
                } else {
                    let actions = self.on_rpc_call(caller, rpc_call);
                    Reaction { control: spinner::Command::Continue, actions }
                }
            },
            Command::RpcResponse(response) => {
                let actions = self.on_rpc_response(response);
                Reaction { control: spinner::Command::Continue, actions }
            },
            Command::RpcCancel(cancel) => {
                let actions = self.on_rpc_cancel(cancel);
                Reaction { control: spinner::Command::Continue, actions }
            },
            Command::ClientConnected(client_id) => {
                self.on_client_connected(client_id);
                Reaction { control: spinner::Command::Continue, actions: Vec::new() }
            },
            Command::ClientDisconnected(client_id) => {
                self.remove_client(client_id);
                self.drop_calls_of(client_id);
                self.functions.deregister_by_client(&client_id);
                Reaction { control: spinner::Command::Continue, actions: Vec::new() }
            },
            Command::SendDataFailed(_, message) => {
                let actions = match message {
                    Message::RpcCall(rpc_call) => self.on_rpc_response(rpc::Response {
                        context: rpc_call.context,
                        kind: rpc::ResponseKind::Last(rpc::Result::NotHandled),
                    }),
                    _ => Vec::new(),
                };
                Reaction { control: spinner::Command::Continue, actions }
            },
        }
    }

    /// Whether the command can be handled; see `admissible`.
    pub fn accepts(&self, command: &Command) -> (res: bool)
        requires
            self.wf(),
        ensures
            res == self.admissible(*command),
    {
        match command {
            Command::RpcCall(_, rpc_call) => !is_core(&rpc_call.function) || is_known_core(&rpc_call.function),
            _ => true,
        }
    }
}

} // verus!
