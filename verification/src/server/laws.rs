//! Properties of the switchboard that span commands.
use vstd::prelude::*;
use crate::ipc::Message;
use crate::rpc;
use crate::server::api_table::{
    ApiInfo, deregistered, infos_of, insert_by_priority, lemma_insert_keeps_sorted, lemma_lower_bound_props,
    sorted_by_priority, lower_bound, without_client,
};
use crate::server::ipc_bridge::ClientId;
use crate::server::swiboe::{
    Action, RunningCall, call_outcome, cancel_outcome, next_from, response_outcome, still_offered, without_caller,
};

verus! {

/// The table of a well-formed switchboard: every name has implementations,
/// ordered by priority.
pub open spec fn table_wf(functions: Map<Seq<char>, Seq<ApiInfo>>) -> bool {
    forall|k: Seq<char>| #[trigger] functions.dom().contains(k) ==> {
        &&& functions[k].len() > 0
        &&& sorted_by_priority(functions[k])
    }
}

/// A call of a registered function goes to the implementation with the
/// lowest priority value, and the call is then running at position 0.
pub proof fn lemma_call_goes_to_lowest_priority(
    functions: Map<Seq<char>, Seq<ApiInfo>>,
    running: Map<Seq<char>, RunningCall>,
    caller: ClientId,
    rpc_call: rpc::Call,
)
    requires
        table_wf(functions),
        functions.dom().contains(rpc_call.function@),
    ensures
        ({
            let infos = functions[rpc_call.function@];
            let (running2, actions) = call_outcome(functions, running, caller, rpc_call);
            &&& actions == seq![Action::SendData(infos[0].client_id, Message::RpcCall(rpc_call))]
            &&& forall|i: int| 0 <= i < infos.len() ==> infos[0].priority <= #[trigger] infos[i].priority
            &&& running2[rpc_call.context@] == RunningCall { caller, rpc_call, last_index: 0, infos }
        }),
{
    let infos = functions[rpc_call.function@];
    assert forall|i: int| 0 <= i < infos.len() implies infos[0].priority <= #[trigger] infos[i].priority by {
        if i > 0 {
            assert(infos[0].priority <= infos[i].priority);
        }
    }
}

/// The position that `next_from` finds: not before `j`, every implementation
/// between that it passes over is gone, and the one it finds is still there.
pub proof fn lemma_next_from(functions: Map<Seq<char>, Seq<ApiInfo>>, name: Seq<char>, infos: Seq<ApiInfo>, j: int)
    requires
        0 <= j <= infos.len(),
    ensures
        j <= next_from(functions, name, infos, j) <= infos.len(),
        forall|k: int| j <= k < next_from(functions, name, infos, j)
            ==> !still_offered(functions, name, #[trigger] infos[k]),
        next_from(functions, name, infos, j) < infos.len()
            ==> still_offered(functions, name, infos[next_from(functions, name, infos, j)]),
    decreases infos.len() - j,
{
    if j < infos.len() && !still_offered(functions, name, infos[j]) {
        lemma_next_from(functions, name, infos, j + 1);
    }
}

/// When the implementation that has a call does not handle it, the call goes
/// to the next of the implementations that there were when the call arrived,
/// passing over those that are gone since; one that came since is never
/// tried. When none is left, the caller is told that nobody handled the call,
/// and the call is over.
pub proof fn lemma_not_handled_falls_through(
    functions: Map<Seq<char>, Seq<ApiInfo>>,
    running: Map<Seq<char>, RunningCall>,
    context: String,
)
    requires
        running.dom().contains(context@),
        running[context@].last_index < running[context@].infos.len(),
    ensures
        ({
            let r = running[context@];
            let name = r.rpc_call.function@;
            let next = next_from(functions, name, r.infos, r.last_index + 1);
            let response = rpc::Response { context, kind: rpc::ResponseKind::Last(rpc::Result::NotHandled) };
            let (running2, actions) = response_outcome(functions, running, response);
            &&& r.last_index < next <= r.infos.len()
            &&& forall|k: int| r.last_index < k < next ==> !still_offered(functions, name, #[trigger] r.infos[k])
            &&& (next < r.infos.len() ==> {
                &&& actions == seq![Action::SendData(r.infos[next].client_id, Message::RpcCall(r.rpc_call))]
                &&& still_offered(functions, name, r.infos[next])
                &&& running2[context@] == RunningCall { last_index: next as usize, ..r }
            })
            &&& (next >= r.infos.len() ==> {
                &&& actions == seq![Action::SendData(r.caller, Message::RpcResponse(rpc::Response {
                    context: r.rpc_call.context,
                    kind: rpc::ResponseKind::Last(rpc::Result::NotHandled),
                }))]
                &&& running2 == running.remove(context@)
            })
        }),
{
    let r = running[context@];
    lemma_next_from(functions, r.rpc_call.function@, r.infos, r.last_index + 1);
}

/// A final success or failure goes to the caller under the caller's context,
/// and the call is over.
pub proof fn lemma_final_result_finishes_call(
    functions: Map<Seq<char>, Seq<ApiInfo>>,
    running: Map<Seq<char>, RunningCall>,
    context: String,
    result: rpc::Result,
)
    requires
        running.dom().contains(context@),
        !(result is NotHandled),
    ensures
        ({
            let r = running[context@];
            let response = rpc::Response { context, kind: rpc::ResponseKind::Last(result) };
            let (running2, actions) = response_outcome(functions, running, response);
            &&& !running2.dom().contains(context@)
            &&& running2 == running.remove(context@)
            &&& forall|k: Seq<char>| k != context@ ==> (#[trigger] running2.dom().contains(k) <==> running.dom().contains(k))
            &&& forall|k: Seq<char>| k != context@ && #[trigger] running.dom().contains(k) ==> running2[k] == running[k]
            &&& actions == seq![Action::SendData(r.caller, Message::RpcResponse(rpc::Response {
                context: r.rpc_call.context,
                kind: rpc::ResponseKind::Last(result),
            }))]
        }),
{
}

/// A cancellation of a running call goes, once, to the implementation that
/// has the call now (the one at its current position among the
/// implementations it is tried on), and the call is over; every other
/// running call stays as it was.
pub proof fn lemma_cancel_reaches_current_implementation(
    running: Map<Seq<char>, RunningCall>,
    cancel: rpc::Cancel,
)
    requires
        running.dom().contains(cancel.context@),
    ensures
        ({
            let r = running[cancel.context@];
            let (running2, actions) = cancel_outcome(running, cancel);
            &&& actions == seq![Action::SendData(r.infos[r.last_index as int].client_id, Message::RpcCancel(cancel))]
            &&& running2 == running.remove(cancel.context@)
            &&& forall|k: Seq<char>| k != cancel.context@ && #[trigger] running.dom().contains(k)
                ==> running2.dom().contains(k) && running2[k] == running[k]
        }),
{
}

/// A call cancelled right after it arrives: the cancellation goes to the
/// very client that the call was sent to.
pub proof fn lemma_cancel_follows_the_call(
    functions: Map<Seq<char>, Seq<ApiInfo>>,
    running: Map<Seq<char>, RunningCall>,
    caller: ClientId,
    rpc_call: rpc::Call,
    cancel: rpc::Cancel,
)
    requires
        table_wf(functions),
        functions.dom().contains(rpc_call.function@),
        cancel.context@ == rpc_call.context@,
    ensures
        ({
            let callee = functions[rpc_call.function@][0].client_id;
            let (running1, sent) = call_outcome(functions, running, caller, rpc_call);
            let (running2, actions) = cancel_outcome(running1, cancel);
            &&& sent == seq![Action::SendData(callee, Message::RpcCall(rpc_call))]
            &&& actions == seq![Action::SendData(callee, Message::RpcCancel(cancel))]
            &&& !running2.dom().contains(cancel.context@)
        }),
{
}

/// A call passed on to the next implementation after a "not handled", then
/// cancelled: the cancellation goes to the client that the call was passed
/// on to, not to one that had it before or comes after it.
pub proof fn lemma_cancel_follows_the_passed_on_call(
    functions: Map<Seq<char>, Seq<ApiInfo>>,
    running: Map<Seq<char>, RunningCall>,
    context: String,
    cancel: rpc::Cancel,
)
    requires
        running.dom().contains(context@),
        running[context@].last_index < running[context@].infos.len() <= usize::MAX,
        cancel.context@ == context@,
    ensures
        ({
            let response = rpc::Response { context, kind: rpc::ResponseKind::Last(rpc::Result::NotHandled) };
            let (running1, sent) = response_outcome(functions, running, response);
            let (running2, actions) = cancel_outcome(running1, cancel);
            sent.len() == 1 ==> (sent[0] matches Action::SendData(callee, Message::RpcCall(_)) ==> {
                &&& actions == seq![Action::SendData(callee, Message::RpcCancel(cancel))]
                &&& !running2.dom().contains(context@)
            })
        }),
{
    let r = running[context@];
    lemma_next_from(functions, r.rpc_call.function@, r.infos, r.last_index + 1);
}

/// Registering keeps the implementations of a name ordered by priority and
/// adds exactly the new one to them.
pub proof fn lemma_register_keeps_order(functions: Map<Seq<char>, Seq<ApiInfo>>, name: Seq<char>, info: ApiInfo)
    requires
        table_wf(functions),
    ensures
        ({
            let old_infos = infos_of(functions, name);
            let new_infos = insert_by_priority(old_infos, info);
            &&& table_wf(functions.insert(name, new_infos))
            &&& new_infos.to_multiset() == old_infos.to_multiset().insert(info)
        }),
{
    let old_infos = infos_of(functions, name);
    lemma_insert_keeps_sorted(old_infos, info);
    lemma_lower_bound_props(old_infos, info.priority);
    let k = lower_bound(old_infos, info.priority);
    let new_infos = insert_by_priority(old_infos, info);
    vstd::seq_lib::lemma_seq_union_to_multiset_commutative::<ApiInfo>(old_infos.subrange(0, k), old_infos.subrange(k, old_infos.len() as int));
    assert(old_infos =~= old_infos.subrange(0, k) + old_infos.subrange(k, old_infos.len() as int));
    assert(new_infos =~= old_infos.subrange(0, k).push(info) + old_infos.subrange(k, old_infos.len() as int));
    vstd::seq_lib::lemma_multiset_commutative::<ApiInfo>(old_infos.subrange(0, k).push(info), old_infos.subrange(k, old_infos.len() as int));
    vstd::seq_lib::lemma_multiset_commutative::<ApiInfo>(old_infos.subrange(0, k), old_infos.subrange(k, old_infos.len() as int));
    old_infos.subrange(0, k).to_multiset_ensures();
    assert(old_infos.subrange(0, k).push(info).to_multiset() == old_infos.subrange(0, k).to_multiset().insert(info));
    assert(new_infos.to_multiset() =~= old_infos.to_multiset().insert(info));
}

/// Once a client is gone, none of the functions is implemented by it, none of
/// the running calls was made by it, and every other client keeps its
/// implementations in their order.
pub proof fn lemma_disconnect_forgets_client(
    functions: Map<Seq<char>, Seq<ApiInfo>>,
    running: Map<Seq<char>, RunningCall>,
    client_id: ClientId,
)
    ensures
        forall|k: Seq<char>, i: int|
            #[trigger] deregistered(functions, client_id).dom().contains(k) && 0 <= i < deregistered(functions, client_id)[k].len()
                ==> #[trigger] deregistered(functions, client_id)[k][i].client_id != client_id,
        forall|k: Seq<char>| #[trigger] without_caller(running, client_id).dom().contains(k)
            ==> without_caller(running, client_id)[k].caller != client_id,
        forall|k: Seq<char>| #[trigger] functions.dom().contains(k)
            ==> infos_of(deregistered(functions, client_id), k) == without_client(functions[k], client_id),
        forall|k: Seq<char>| #[trigger] functions.dom().contains(k) && without_client(functions[k], client_id).len() == 0
            ==> !deregistered(functions, client_id).dom().contains(k),
{
    broadcast use vstd::seq_lib::group_filter_ensures;
    let d = deregistered(functions, client_id);
    assert forall|k: Seq<char>, i: int|
        #[trigger] d.dom().contains(k) && 0 <= i < d[k].len() implies #[trigger] d[k][i].client_id != client_id by {
        let s = functions[k];
        assert(d[k] == s.filter(|info: ApiInfo| info.client_id != client_id));
    }
    assert forall|k: Seq<char>| #[trigger] functions.dom().contains(k) implies
        infos_of(d, k) == without_client(functions[k], client_id) by {
        if without_client(functions[k], client_id).len() == 0 {
            assert(without_client(functions[k], client_id) =~= Seq::<ApiInfo>::empty());
        }
    }
}

/// `client_id` implements none of the functions.
pub open spec fn registers_nothing(functions: Map<Seq<char>, Seq<ApiInfo>>, client_id: ClientId) -> bool {
    forall|k: Seq<char>, i: int|
        #[trigger] functions.dom().contains(k) && 0 <= i < functions[k].len() ==> #[trigger] functions[k][i].client_id
            != client_id
}

/// Whether `actions` hand `client_id` a call.
pub open spec fn sends_call_to(actions: Seq<Action>, client_id: ClientId) -> bool {
    exists|i: int| 0 <= i < actions.len() && (#[trigger] actions[i] matches Action::SendData(to, Message::RpcCall(_)) && to == client_id)
}

/// A client that has gone gets no calls: once it is disconnected it
/// registers nothing, registrations of other clients keep it so, and while
/// it registers nothing no call, passed-on call or undeliverable call is
/// sent to it, not even one that it had been offered when the call arrived.
pub proof fn lemma_departed_client_gets_no_calls(
    functions: Map<Seq<char>, Seq<ApiInfo>>,
    running: Map<Seq<char>, RunningCall>,
    client_id: ClientId,
    caller: ClientId,
    rpc_call: rpc::Call,
    response: rpc::Response,
    name: Seq<char>,
    info: ApiInfo,
)
    ensures
        registers_nothing(deregistered(functions, client_id), client_id),
        registers_nothing(functions, client_id) && table_wf(functions) && info.client_id != client_id
            ==> registers_nothing(
            functions.insert(name, insert_by_priority(infos_of(functions, name), info)),
            client_id,
        ),
        registers_nothing(functions, client_id) && table_wf(functions)
            ==> !sends_call_to(call_outcome(functions, running, caller, rpc_call).1, client_id),
        registers_nothing(functions, client_id)
            ==> !sends_call_to(response_outcome(functions, running, response).1, client_id),
{
    lemma_disconnect_forgets_client(functions, running, client_id);
    if registers_nothing(functions, client_id) && table_wf(functions) && info.client_id != client_id {
        let old_infos = infos_of(functions, name);
        let k = crate::server::api_table::lower_bound(old_infos, info.priority);
        lemma_lower_bound_props(old_infos, info.priority);
        let f2 = functions.insert(name, insert_by_priority(old_infos, info));
        assert forall|n: Seq<char>, i: int| #[trigger] f2.dom().contains(n) && 0 <= i < f2[n].len() implies #[trigger] f2[n][i].client_id != client_id by {
            if n == name {
                if functions.dom().contains(name) {
                    if i < k {
                        assert(f2[n][i] == old_infos[i]);
                    } else if i > k {
                        assert(f2[n][i] == old_infos[i - 1]);
                    }
                }
            }
        }
    }
    if registers_nothing(functions, client_id) && table_wf(functions) {
        let actions = call_outcome(functions, running, caller, rpc_call).1;
        if functions.dom().contains(rpc_call.function@) {
            assert(functions[rpc_call.function@].len() > 0);
            assert(functions[rpc_call.function@][0].client_id != client_id);
        }
        assert(!sends_call_to(actions, client_id));
    }
    if registers_nothing(functions, client_id) {
        let key = response.context@;
        if running.dom().contains(key) {
            let r = running[key];
            let name2 = r.rpc_call.function@;
            if 0 <= r.last_index + 1 <= r.infos.len() {
                lemma_next_from(functions, name2, r.infos, r.last_index + 1);
                let next = next_from(functions, name2, r.infos, r.last_index + 1);
                if next < r.infos.len() && response.kind == rpc::ResponseKind::Last(rpc::Result::NotHandled) {
                    let target = r.infos[next];
                    assert(infos_of(functions, name2).contains(target));
                    let j = choose|j: int| 0 <= j < infos_of(functions, name2).len() && infos_of(functions, name2)[j] == target;
                    assert(functions.dom().contains(name2));
                    assert(functions[name2][j].client_id != client_id);
                }
            } else {
                assert(next_from(functions, name2, r.infos, r.last_index + 1) == r.infos.len());
            }
        }
    }
}

/// The running calls and the messages after a series of responses, one
/// after the other.
pub open spec fn responses_outcome(
    functions: Map<Seq<char>, Seq<ApiInfo>>,
    running: Map<Seq<char>, RunningCall>,
    responses: Seq<rpc::Response>,
) -> (Map<Seq<char>, RunningCall>, Seq<Action>)
    decreases responses.len(),
{
    if responses.len() == 0 {
        (running, Seq::empty())
    } else {
        let (r1, a1) = response_outcome(functions, running, responses[0]);
        let (r2, a2) = responses_outcome(functions, r1, responses.drop_first());
        (r2, a1 + a2)
    }
}

/// A series of partial answers to a running call reaches its caller, each
/// under the caller's context and in the order in which they came, and the
/// call keeps running.
pub proof fn lemma_partial_answers_stream_in_order(
    functions: Map<Seq<char>, Seq<ApiInfo>>,
    running: Map<Seq<char>, RunningCall>,
    context: String,
    values: Seq<String>,
)
    requires
        running.dom().contains(context@),
    ensures
        ({
            let r = running[context@];
            let responses = values.map_values(|v: String| rpc::Response { context, kind: rpc::ResponseKind::Partial(v) });
            let (running2, actions) = responses_outcome(functions, running, responses);
            &&& running2 == running
            &&& actions == values.map_values(|v: String| Action::SendData(r.caller, Message::RpcResponse(rpc::Response {
                context: r.rpc_call.context,
                kind: rpc::ResponseKind::Partial(v),
            })))
        }),
    decreases values.len(),
{
    let r = running[context@];
    let responses = values.map_values(|v: String| rpc::Response { context, kind: rpc::ResponseKind::Partial(v) });
    if values.len() > 0 {
        lemma_partial_answers_stream_in_order(functions, running, context, values.drop_first());
        assert(responses.drop_first() =~= values.drop_first().map_values(
            |v: String| rpc::Response { context, kind: rpc::ResponseKind::Partial(v) },
        ));
        let expected = values.map_values(|v: String| Action::SendData(r.caller, Message::RpcResponse(rpc::Response {
            context: r.rpc_call.context,
            kind: rpc::ResponseKind::Partial(v),
        })));
        let rest = values.drop_first().map_values(|v: String| Action::SendData(r.caller, Message::RpcResponse(rpc::Response {
            context: r.rpc_call.context,
            kind: rpc::ResponseKind::Partial(v),
        })));
        assert(expected =~= seq![expected[0]] + rest);
    } else {
        assert(responses_outcome(functions, running, responses).1 =~= values.map_values(|v: String| Action::SendData(r.caller, Message::RpcResponse(rpc::Response {
            context: r.rpc_call.context,
            kind: rpc::ResponseKind::Partial(v),
        }))));
    }
}

/// Once a call is over, whatever answers or cancellations still come for its
/// context change nothing and send nothing: a call gets at most one final
/// answer.
pub proof fn lemma_finished_call_stays_silent(
    functions: Map<Seq<char>, Seq<ApiInfo>>,
    running: Map<Seq<char>, RunningCall>,
    context: Seq<char>,
    responses: Seq<rpc::Response>,
    cancel: rpc::Cancel,
)
    requires
        !running.dom().contains(context),
        forall|i: int| 0 <= i < responses.len() ==> (#[trigger] responses[i]).context@ == context,
    ensures
        responses_outcome(functions, running, responses) == (running, Seq::<Action>::empty()),
        cancel.context@ == context ==> cancel_outcome(running, cancel) == (running, Seq::<Action>::empty()),
    decreases responses.len(),
{
    if responses.len() > 0 {
        assert(responses[0].context@ == context);
        lemma_finished_call_stays_silent(functions, running, context, responses.drop_first(), cancel);
        assert(Seq::<Action>::empty() + Seq::<Action>::empty() =~= Seq::<Action>::empty());
    }
}

/// Dropping a client's registrations a second time changes nothing.
pub proof fn lemma_deregister_twice(functions: Map<Seq<char>, Seq<ApiInfo>>, client_id: ClientId)
    ensures
        deregistered(deregistered(functions, client_id), client_id) == deregistered(functions, client_id),
{
    let d = deregistered(functions, client_id);
    assert forall|k: Seq<char>| #[trigger] d.dom().contains(k) implies without_client(d[k], client_id) == d[k] by {
        lemma_without_client_twice(functions[k], client_id);
    }
    assert(deregistered(d, client_id) =~= d);
}

proof fn lemma_without_client_twice(s: Seq<ApiInfo>, client_id: ClientId)
    ensures
        without_client(without_client(s, client_id), client_id) == without_client(s, client_id),
    decreases s.len(),
{
    if s.len() == 0 {
        reveal(Seq::filter);
    } else {
        let d = s.drop_last();
        let a = s.last();
        lemma_without_client_twice(d, client_id);
        assert(s =~= d.push(a));
        let p = |info: ApiInfo| info.client_id != client_id;
        d.lemma_filter_push(a, p);
        if p(a) {
            without_client(d, client_id).lemma_filter_push(a, p);
        }
    }
}

} // verus!
