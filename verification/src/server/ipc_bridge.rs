//! The bookkeeping of the IPC bridge: which socket token stands for a
//! listener and which for a connected client, the identities handed to new
//! clients, and where the bridge sends what it reads and what it is told.
use vstd::prelude::*;
use crate::ipc::Message;
use crate::server::swiboe;

verus! {

/// A connected client: the serial number of its connection and the token
/// under which its socket is registered.
#[derive(PartialEq, Eq, Clone, Copy, Hash, Debug, Structural)]
pub struct ClientId {
    pub serial: u64,
    pub token: usize,
}

/// The token of the Unix domain socket listener.
pub const UNIX_LISTENER: usize = 0;

/// How many clients can be connected at the same time.
pub const MAX_CONNECTIONS: usize = 1024;

/// What a socket token that became ready stands for.
#[derive(PartialEq, Eq, Clone, Copy, Debug, Structural)]
pub enum TokenKind {
    /// The Unix domain socket listener.
    UnixListener,
    /// The TCP listener at this position in the list of TCP addresses.
    TcpListener(usize),
    /// A connected client, or a client that was connected.
    Client,
}

/// The clients that are connected, by token. Tokens below
/// `first_client_token` belong to the listeners; the clients get the tokens
/// from there on, the lowest free one first, and serial numbers that count
/// up from one and are never given out twice.
pub struct Connections {
    first_client_token: usize,
    next_serial: u64,
    slots: Vec<Option<ClientId>>,
}

impl Connections {
    /// The first token that a client can have.
    pub closed spec fn first_token(&self) -> nat {
        self.first_client_token as nat
    }

    /// The serial number that the next client gets.
    pub closed spec fn serial(&self) -> nat {
        self.next_serial as nat
    }

    /// The connected clients, by token.
    pub closed spec fn view(&self) -> Map<usize, ClientId> {
        Map::new(
            |t: usize|
                self.first_client_token <= t < self.first_client_token + self.slots@.len()
                    && self.slots@[t - self.first_client_token] is Some,
            |t: usize| self.slots@[t - self.first_client_token]->0,
        )
    }

    /// The bookkeeping is consistent: every client sits under its own token,
    /// no two clients share a serial number, and every serial number given
    /// out lies below the next one.
    pub closed spec fn wf(&self) -> bool {
        &&& self.slots@.len() == MAX_CONNECTIONS
        &&& 1 <= self.first_client_token
        &&& self.first_client_token + MAX_CONNECTIONS <= usize::MAX
        &&& 1 <= self.next_serial
        &&& forall|i: int|
            0 <= i < self.slots@.len() && (#[trigger] self.slots@[i]) is Some ==> {
                &&& self.slots@[i]->0.token == self.first_client_token + i
                &&& 1 <= self.slots@[i]->0.serial < self.next_serial
            }
        &&& forall|i: int, j: int|
            0 <= i < self.slots@.len() && 0 <= j < self.slots@.len() && i != j
                && (#[trigger] self.slots@[i]) is Some && (#[trigger] self.slots@[j]) is Some
                ==> self.slots@[i]->0.serial != self.slots@[j]->0.serial
    }

    /// `client` is connected under its token now.
    pub open spec fn current(&self, client: ClientId) -> bool {
        self@.contains_key(client.token) && self@[client.token] == client
    }

    /// The tokens of the client range.
    pub open spec fn client_token(&self, token: usize) -> bool {
        self.first_token() <= token < self.first_token() + MAX_CONNECTIONS
    }

    /// Every client token is taken.
    pub open spec fn full(&self) -> bool {
        forall|t: usize| self.client_token(t) ==> #[trigger] self@.contains_key(t)
    }

    proof fn lemma_view(&self)
        requires
            self.wf(),
        ensures
            forall|t: usize| #[trigger]
                self@.contains_key(t) ==> self.client_token(t) && self@[t].token == t && 1 <= self@[t].serial
                    < self.serial(),
            forall|t: usize, u: usize|
                #![trigger self@[t], self@[u]]
                self@.contains_key(t) && self@.contains_key(u) && t != u ==> self@[t].serial != self@[u].serial,
    {
        assert forall|t: usize| #[trigger] self@.contains_key(t) implies self.client_token(t) && self@[t].token
            == t && 1 <= self@[t].serial < self.serial() by {
            let i = t - self.first_client_token;
            assert(self.slots@[i] is Some);
        }
        assert forall|t: usize, u: usize|
            #![trigger self@[t], self@[u]]
            self@.contains_key(t) && self@.contains_key(u) && t != u implies self@[t].serial != self@[u].serial by {
            let i = t - self.first_client_token;
            let j = u - self.first_client_token;
            assert(self.slots@[i] is Some && self.slots@[j] is Some);
        }
    }

    /// The bookkeeping of a bridge with `tcp_listeners` TCP listeners:
    /// their tokens follow the one of the Unix listener, and nobody is
    /// connected yet.
    pub fn new(tcp_listeners: usize) -> (conns: Self)
        requires
            tcp_listeners + 1 + MAX_CONNECTIONS <= usize::MAX,
        ensures
            conns.wf(),
            conns.first_token() == tcp_listeners + 1,
            conns.serial() == 1,
            conns@ == Map::<usize, ClientId>::empty(),
    {
        let mut slots: Vec<Option<ClientId>> = Vec::new();
        while slots.len() < MAX_CONNECTIONS
            invariant
                slots@.len() <= MAX_CONNECTIONS,
                forall|i: int| 0 <= i < slots@.len() ==> slots@[i] is None,
            decreases MAX_CONNECTIONS - slots@.len(),
        {
            slots.push(None);
        }
        let conns = Connections { first_client_token: tcp_listeners + 1, next_serial: 1, slots };
        assert(conns@ =~= Map::<usize, ClientId>::empty());
        conns
    }

    /// The first token that a client can have.
    pub fn first_client_token(&self) -> (token: usize)
        ensures
            token == self.first_token(),
    {
        self.first_client_token
    }

    /// Whether another client can be given a serial number.
    pub fn has_serials_left(&self) -> (res: bool)
        ensures
            res == (self.serial() < u64::MAX),
    {
        self.next_serial < u64::MAX
    }

    /// What `token` stands for.
    pub fn token_kind(&self, token: usize) -> (kind: TokenKind)
        requires
            self.wf(),
        ensures
            token == UNIX_LISTENER ==> kind == TokenKind::UnixListener,
            UNIX_LISTENER < token < self.first_token() ==> kind == TokenKind::TcpListener((token - 1) as usize),
            self.first_token() <= token ==> kind == TokenKind::Client,
    {
        if token == UNIX_LISTENER {
            TokenKind::UnixListener
        } else if token < self.first_client_token {
            TokenKind::TcpListener(token - 1)
        } else {
            TokenKind::Client
        }
    }

    /// The client connected under `token`, if any.
    pub fn get(&self, token: usize) -> (client: Option<ClientId>)
        requires
            self.wf(),
        ensures
            client == (if self@.contains_key(token) { Some(self@[token]) } else { None::<ClientId> }),
    {
        if token < self.first_client_token || token - self.first_client_token >= self.slots.len() {
            None
        } else {
            self.slots[token - self.first_client_token]
        }
    }

    /// Whether `client` is still connected: a message addressed to a client
    /// that went away is refused even when another client has its token now.
    pub fn is_current(&self, client: ClientId) -> (res: bool)
        requires
            self.wf(),
        ensures
            res == self.current(client),
    {
        match self.get(client.token) {
            Some(c) => c == client,
            None => false,
        }
    }

    /// Admits a new client: it gets the lowest free client token and the next
    /// serial number. Some client token must be free.
    pub fn new_client(&mut self) -> (c: ClientId)
        requires
            old(self).wf(),
            old(self).serial() < u64::MAX,
            !old(self).full(),
        ensures
            final(self).wf(),
            final(self).first_token() == old(self).first_token(),
            c.serial == old(self).serial(),
            old(self).client_token(c.token),
            !old(self)@.contains_key(c.token),
            forall|t: usize| old(self).first_token() <= t < c.token ==> #[trigger] old(self)@.contains_key(t),
            final(self)@ == old(self)@.insert(c.token, c),
            final(self).serial() == old(self).serial() + 1,
            final(self).current(c),
            forall|c: ClientId|
                c.serial < old(self).serial() && !old(self).current(c) ==> !#[trigger] final(self).current(c),
    {
        proof {
            self.lemma_view();
        }
        let mut i: usize = 0;
        while i < self.slots.len()
            invariant
                self.wf(),
                self == old(self),
                self.next_serial < u64::MAX,
                i <= self.slots@.len(),
                forall|k: int| 0 <= k < i ==> (#[trigger] self.slots@[k]) is Some,
            decreases self.slots@.len() - i,
        {
            if self.slots[i].is_none() {
                let client = ClientId { serial: self.next_serial, token: self.first_client_token + i };
                let ghost before = *self;
                self.slots.set(i, Some(client));
                self.next_serial = self.next_serial + 1;
                proof {
                    assert(before.client_token(client.token) && !before@.contains_key(client.token));
                    assert(self@ =~= before@.insert(client.token, client));
                    assert forall|t: usize| before.first_token() <= t < client.token implies #[trigger] before@.contains_key(t) by {
                        assert(before.slots@[t - before.first_client_token] is Some);
                    }
                    assert forall|k: int, j: int|
                        0 <= k < self.slots@.len() && 0 <= j < self.slots@.len() && k != j
                            && (#[trigger] self.slots@[k]) is Some && (#[trigger] self.slots@[j]) is Some
                            implies self.slots@[k]->0.serial != self.slots@[j]->0.serial by {
                        if k != i && j != i {
                            assert(before.slots@[k] is Some && before.slots@[j] is Some);
                        } else if k == i {
                            assert(before.slots@[j] is Some);
                        } else {
                            assert(before.slots@[k] is Some);
                        }
                    }
                    assert forall|k: int|
                        0 <= k < self.slots@.len() && (#[trigger] self.slots@[k]) is Some implies {
                            &&& self.slots@[k]->0.token == self.first_client_token + k
                            &&& 1 <= self.slots@[k]->0.serial < self.next_serial
                        } by {
                        if k != i {
                            assert(before.slots@[k] is Some);
                        }
                    }
                    assert forall|c: ClientId| c.serial < before.serial() && !before.current(c) implies !#[trigger] self.current(c) by {
                        if self.current(c) && c.token == client.token {
                            assert(c == client);
                        }
                    }
                }
                return client;
            }
            i = i + 1;
        }
        proof {
            assert forall|t: usize| self.client_token(t) implies #[trigger] self@.contains_key(t) by {
                assert(self.slots@[t - self.first_client_token] is Some);
            }
        }
        unreached()
    }

    /// Whether every client token is taken.
    pub fn is_full(&self) -> (res: bool)
        requires
            self.wf(),
        ensures
            res == self.full(),
    {
        let mut i: usize = 0;
        while i < self.slots.len()
            invariant
                self.wf(),
                i <= self.slots@.len(),
                forall|k: int| 0 <= k < i ==> (#[trigger] self.slots@[k]) is Some,
            decreases self.slots@.len() - i,
        {
            if self.slots[i].is_none() {
                proof {
                    let t = (self.first_client_token + i) as usize;
                    assert(self.client_token(t) && !self@.contains_key(t));
                }
                return false;
            }
            i = i + 1;
        }
        proof {
            assert forall|t: usize| self.client_token(t) implies #[trigger] self@.contains_key(t) by {
                assert(self.slots@[t - self.first_client_token] is Some);
            }
        }
        true
    }



    /// Forgets the client under `token` and hands back its identity, if one
    /// was connected there.
    pub fn remove(&mut self, token: usize) -> (client: Option<ClientId>)
        requires
            old(self).wf(),
        ensures
            final(self).wf(),
            final(self).first_token() == old(self).first_token(),
            final(self).serial() == old(self).serial(),
            client == (if old(self)@.contains_key(token) { Some(old(self)@[token]) } else { None::<ClientId> }),
            final(self)@ == old(self)@.remove(token),
            forall|c: ClientId| !old(self).current(c) ==> !#[trigger] final(self).current(c),
            client matches Some(c) ==> !final(self).current(c) && c.serial < final(self).serial(),
    {
        proof {
            self.lemma_view();
        }
        let client = self.get(token);
        if client.is_some() {
            let i = token - self.first_client_token;
            let ghost before = *self;
            self.slots.set(i, None);
            proof {
                assert(self@ =~= before@.remove(token));
                assert forall|k: int, j: int|
                    0 <= k < self.slots@.len() && 0 <= j < self.slots@.len() && k != j
                        && (#[trigger] self.slots@[k]) is Some && (#[trigger] self.slots@[j]) is Some
                        implies self.slots@[k]->0.serial != self.slots@[j]->0.serial by {
                    assert(before.slots@[k] is Some && before.slots@[j] is Some);
                }
                assert forall|k: int|
                    0 <= k < self.slots@.len() && (#[trigger] self.slots@[k]) is Some implies {
                        &&& self.slots@[k]->0.token == self.first_client_token + k
                        &&& 1 <= self.slots@[k]->0.serial < self.next_serial
                    } by {
                    assert(before.slots@[k] is Some);
                }
            }
        } else {
            proof {
                assert(self@ =~= old(self)@.remove(token));
            }
        }
        client
    }

    /// What the bridge does with a message for `receiver`: queue it on the
    /// receiver's connection while the receiver is connected, else tell the
    /// switchboard that it could not be delivered.
    pub fn route_send(&self, receiver: ClientId, message: Message) -> (outcome: SendOutcome)
        requires
            self.wf(),
        ensures
            outcome == (if self.current(receiver) {
                SendOutcome::Queue(receiver.token, message)
            } else {
                SendOutcome::Failed(swiboe::Command::SendDataFailed(receiver, message))
            }),
    {
        if self.is_current(receiver) {
            SendOutcome::Queue(receiver.token, message)
        } else {
            SendOutcome::Failed(swiboe::Command::SendDataFailed(receiver, message))
        }
    }

    /// Admits a client that a listener accepted, and tells the switchboard
    /// about it. Some client token must be free.
    pub fn accept(&mut self) -> (announcement: swiboe::Command)
        requires
            old(self).wf(),
            old(self).serial() < u64::MAX,
            !old(self).full(),
        ensures
            final(self).wf(),
            final(self).first_token() == old(self).first_token(),
            final(self).serial() == old(self).serial() + 1,
            announcement matches swiboe::Command::ClientConnected(c) && {
                &&& final(self)@ == old(self)@.insert(c.token, c)
                &&& c.serial == old(self).serial()
                &&& old(self).client_token(c.token)
                &&& !old(self)@.contains_key(c.token)
                &&& forall|t: usize| old(self).first_token() <= t < c.token ==> #[trigger] old(self)@.contains_key(t)
            },
    {
        swiboe::Command::ClientConnected(self.new_client())
    }

    /// The socket under `token` hung up: the client is forgotten, and the
    /// switchboard is told, if a client was connected there.
    pub fn hang_up(&mut self, token: usize) -> (announcement: Option<swiboe::Command>)
        requires
            old(self).wf(),
        ensures
            final(self).wf(),
            final(self)@ == old(self)@.remove(token),
            final(self).first_token() == old(self).first_token(),
            final(self).serial() == old(self).serial(),
            announcement == (if old(self)@.contains_key(token) {
                Some(swiboe::Command::ClientDisconnected(old(self)@[token]))
            } else {
                None::<swiboe::Command>
            }),
            old(self)@.contains_key(token) ==> !final(self).current(old(self)@[token]),
            forall|c: ClientId| !old(self).current(c) ==> !#[trigger] final(self).current(c),
    {
        match self.remove(token) {
            Some(c) => Some(swiboe::Command::ClientDisconnected(c)),
            None => None,
        }
    }
}

/// Where a message for a client goes.
#[derive(Debug, Clone, PartialEq, Eq)]
pub enum SendOutcome {
    /// Onto the write queue of the connection under this token.
    Queue(usize, Message),
    /// Back to the switchboard, as undeliverable.
    Failed(swiboe::Command),
}

/// What the switchboard is told of a message that `client` sent.
pub fn command_of(client: ClientId, message: Message) -> (cmd: swiboe::Command)
    ensures
        cmd == (match message {
            Message::RpcCall(call) => swiboe::Command::RpcCall(client, call),
            Message::RpcResponse(response) => swiboe::Command::RpcResponse(response),
            Message::RpcCancel(cancel) => swiboe::Command::RpcCancel(cancel),
        }),
{
    match message {
        Message::RpcCall(call) => swiboe::Command::RpcCall(client, call),
        Message::RpcResponse(response) => swiboe::Command::RpcResponse(response),
        Message::RpcCancel(cancel) => swiboe::Command::RpcCancel(cancel),
    }
}

} // verus!
