//! Builders that describe a scenario: its servers, its clients, their
//! connections, and what every connection and stream does.
//!
//! Every builder owns the state of the scenario while it is in use, and
//! hands it back to the builder that created it when its closure returns.

use crate::op::{copies, hex, sha256, ClientOp, ConnectionOp, ScenarioId};
use crate::scenario::encode::{scenario_bytes, scenario_enc};
use crate::scenario::Scenario;
use crate::scenario::{Client as ClientInfo, Connection as ConnectionTemplate, Server as ServerInfo};
use core::marker::PhantomData;
use core::time::Duration;
use vstd::prelude::*;

verus! {

/// Marks a checkpoint that parks a thread.
#[derive(Debug)]
pub struct Park;

/// Marks a checkpoint that unparks a thread.
#[derive(Debug)]
pub struct Unpark;

/// Marks what happens on the endpoint's own side of a stream.
#[derive(Debug)]
pub struct Local;

/// Marks what happens on the peer's side of a stream.
#[derive(Debug)]
pub struct Remote;

/// The client side of a connection.
#[derive(Debug)]
pub struct Client {}

/// An endpoint kind, and the kind of its peer.
pub trait Endpoint {
    type Peer;
}

impl Endpoint for Client {
    type Peer = Server;
}

impl Endpoint for Server {
    type Peer = Client;
}

/// The state of a scenario under construction: the next checkpoint id,
/// the servers and clients so far, and the trace names, by trace id.
#[derive(Debug)]
pub struct ScenarioState {
    checkpoint: u64,
    servers: Vec<ServerInfo>,
    clients: Vec<ClientInfo>,
    traces: Vec<String>,
}

/// `b` is a copy of the ops `a`, op by op.
pub open spec fn copies_ops(a: Seq<ConnectionOp>, b: Seq<ConnectionOp>) -> bool {
    &&& b.len() == a.len()
    &&& forall|i: int| 0 <= i < a.len() ==> copies(a[i], #[trigger] b[i])
}

/// `b` is a copy of the stream ops `a`, stream by stream.
pub open spec fn copies_streams(a: Seq<Vec<ConnectionOp>>, b: Seq<Vec<ConnectionOp>>) -> bool {
    &&& b.len() == a.len()
    &&& forall|i: int| 0 <= i < a.len() ==> #[trigger] b[i]@.len() == a[i]@.len()
    &&& forall|i: int, j: int| 0 <= i < a.len() && 0 <= j < a[i]@.len() ==> copies(a[i]@[j], #[trigger] b[i]@[j])
}

/// The connection `t` runs a copy of `ops`, and of `streams` on the peer's
/// streams.
pub open spec fn recorded(t: ConnectionTemplate, ops: Seq<ConnectionOp>, streams: Seq<Vec<ConnectionOp>>) -> bool {
    copies_ops(ops, t.ops@) && copies_streams(streams, t.peer_streams@)
}

/// The trace names hold no name twice.
pub open spec fn distinct_names(names: Seq<Seq<char>>) -> bool {
    forall|i: int, j: int| 0 <= i < j < names.len() ==> names[i] != names[j]
}

/// `id` is the trace id of `name` among `names`: the position where it
/// first occurs, or the next id when it is new.
pub open spec fn is_trace_id(names: Seq<Seq<char>>, name: Seq<char>, id: int) -> bool {
    if names.contains(name) {
        0 <= id < names.len() && names[id] == name && forall|k: int| 0 <= k < id ==> names[k] != name
    } else {
        id == names.len()
    }
}

impl ScenarioState {
    pub closed spec fn next_checkpoint(&self) -> u64 {
        self.checkpoint
    }

    pub closed spec fn server_count(&self) -> nat {
        self.servers@.len()
    }

    pub closed spec fn client_count(&self) -> nat {
        self.clients@.len()
    }

    /// The names of the trace events, by trace id.
    pub closed spec fn trace_names(&self) -> Seq<Seq<char>> {
        self.traces@.map_values(|s: String| s@)
    }

    /// The connections of server `i`, or nothing for a server that does not
    /// exist.
    pub closed spec fn server_connections(&self, i: int) -> nat {
        if 0 <= i < self.servers@.len() {
            self.servers@[i].connections@.len()
        } else {
            0
        }
    }

    /// The connections of client `i`.
    pub closed spec fn client_connections(&self, i: int) -> nat {
        if 0 <= i < self.clients@.len() {
            self.clients@[i].connections@.len()
        } else {
            0
        }
    }

    /// The clients, by id.
    pub closed spec fn client_list(&self) -> Seq<ClientInfo> {
        self.clients@
    }

    /// The servers, by id.
    pub closed spec fn server_list(&self) -> Seq<ServerInfo> {
        self.servers@
    }

    /// `self` is `before` with one more connection for server `s`, a copy of
    /// `server_ops` with the client's streams `client_streams`, and one more
    /// for client `c`, a copy of `client_ops` with the server's streams
    /// `server_streams`; nothing else differs.
    pub open spec fn adds_connection(
        &self,
        before: ScenarioState,
        s: int,
        server_ops: Seq<ConnectionOp>,
        server_streams: Seq<Vec<ConnectionOp>>,
        c: int,
        client_ops: Seq<ConnectionOp>,
        client_streams: Seq<Vec<ConnectionOp>>,
    ) -> bool {
        let os = before.server_list();
        let ns = self.server_list();
        let oc = before.client_list();
        let nc = self.client_list();
        &&& self.next_checkpoint() == before.next_checkpoint()
        &&& self.trace_names() == before.trace_names()
        &&& ns.len() == os.len()
        &&& nc.len() == oc.len()
        &&& 0 <= s < ns.len()
        &&& 0 <= c < nc.len()
        &&& forall|j: int| 0 <= j < ns.len() && j != s ==> #[trigger] ns[j] == os[j]
        &&& forall|j: int| 0 <= j < nc.len() && j != c ==> #[trigger] nc[j] == oc[j]
        &&& ns[s].connections@.len() == os[s].connections@.len() + 1
        &&& ns[s].connections@.drop_last() == os[s].connections@
        &&& recorded(ns[s].connections@.last(), server_ops, client_streams)
        &&& nc[c].name == oc[c].name
        &&& nc[c].scenario == oc[c].scenario
        &&& nc[c].connections@.len() == oc[c].connections@.len() + 1
        &&& nc[c].connections@.drop_last() == oc[c].connections@
        &&& recorded(nc[c].connections@.last(), client_ops, server_streams)
    }

    /// The ops of client `i`, or none for a client that does not exist.
    pub closed spec fn client_ops(&self, i: int) -> Seq<ClientOp> {
        if 0 <= i < self.clients@.len() {
            self.clients@[i].scenario@
        } else {
            Seq::<ClientOp>::empty()
        }
    }

    /// `self` is `before` with one more client, which has no name, ops or
    /// connections yet.
    pub closed spec fn adds_client(&self, before: ScenarioState) -> bool {
        &&& self.checkpoint == before.checkpoint
        &&& self.servers@ == before.servers@
        &&& self.traces@ == before.traces@
        &&& self.clients@.len() == before.clients@.len() + 1
        &&& self.clients@.subrange(0, before.clients@.len() as int) == before.clients@
        &&& self.clients@.last().name@.len() == 0
        &&& self.clients@.last().scenario@.len() == 0
        &&& self.clients@.last().connections@.len() == 0
    }

    /// `self` is `other` but for the ops of client `i`.
    pub closed spec fn same_but_client_ops(&self, other: ScenarioState, i: int) -> bool {
        &&& self.checkpoint == other.checkpoint
        &&& self.servers@ == other.servers@
        &&& self.traces@ == other.traces@
        &&& self.clients@.len() == other.clients@.len()
        &&& forall|j: int| 0 <= j < self.clients@.len() && j != i ==> #[trigger] self.clients@[j] == other.clients@[j]
        &&& 0 <= i < self.clients@.len() ==> self.clients@[i].name == other.clients@[i].name
            && self.clients@[i].connections == other.clients@[i].connections
    }

    fn new() -> (s: Self)
        ensures
            s.next_checkpoint() == 0,
            s.server_count() == 0,
            s.client_count() == 0,
            s.trace_names() == Seq::<Seq<char>>::empty(),
    {
        let s = ScenarioState { checkpoint: 0, servers: Vec::new(), clients: Vec::new(), traces: Vec::new() };
        assert(s.trace_names() =~= Seq::<Seq<char>>::empty());
        s
    }

    /// Hands out the next checkpoint id.
    fn next_checkpoint_id(&mut self) -> (id: u64)
        ensures
            id == old(self).next_checkpoint(),
            final(self).next_checkpoint() == old(self).next_checkpoint().wrapping_add(1),
            final(self).server_count() == old(self).server_count(),
            final(self).client_count() == old(self).client_count(),
            final(self).trace_names() == old(self).trace_names(),
    {
        let id = self.checkpoint;
        self.checkpoint = self.checkpoint.wrapping_add(1);
        id
    }

    /// The trace id of `name`: the id it was given before, or the next one.
    fn trace(&mut self, name: &str) -> (id: u64)
        ensures
            is_trace_id(old(self).trace_names(), name@, id as int),
            final(self).trace_names() == if old(self).trace_names().contains(name@) {
                old(self).trace_names()
            } else {
                old(self).trace_names().push(name@)
            },
            final(self).next_checkpoint() == old(self).next_checkpoint(),
            final(self).server_count() == old(self).server_count(),
            final(self).client_count() == old(self).client_count(),
    {
        let owned = name.to_owned();
        let ghost names = self.trace_names();
        let mut i: usize = 0;
        while i < self.traces.len()
            invariant
                i <= self.traces@.len(),
                names == self.trace_names(),
                owned@ == name@,
                forall|k: int| 0 <= k < i ==> names[k] != name@,
            decreases self.traces@.len() - i,
        {
            if self.traces[i] == owned {
                proof {
                    assert(names[i as int] == name@);
                    assert(names.contains(name@));
                }
                return i as u64;
            }
            i = i + 1;
        }
        proof {
            assert(!names.contains(name@));
        }
        let id = self.traces.len() as u64;
        self.traces.push(owned);
        proof {
            assert(self.trace_names() =~= names.push(name@));
        }
        id
    }
}

/// A checkpoint: one half parks a thread, the other unparks it; both carry
/// the same id.
#[derive(Debug)]
pub struct Checkpoint<Endpoint, Location, Op> {
    id: u64,
    endpoint: PhantomData<Endpoint>,
    location: PhantomData<Location>,
    op: PhantomData<Op>,
}

impl<Endpoint, Location, Op> Checkpoint<Endpoint, Location, Op> {
    pub closed spec fn spec_id(&self) -> u64 {
        self.id
    }

    fn new(id: u64) -> (c: Self)
        ensures
            c.spec_id() == id,
    {
        Checkpoint { id, endpoint: PhantomData, location: PhantomData, op: PhantomData }
    }

    /// The checkpoint id.
    pub fn id(&self) -> (id: u64)
        ensures
            id == self.spec_id(),
    {
        self.id
    }
}

/// A pair of checkpoints with the next id of `state`.
fn checkpoint_pair<E, L>(state: &mut ScenarioState) -> (r: (Checkpoint<E, L, Park>, Checkpoint<E, L, Unpark>))
    ensures
        r.0.spec_id() == old(state).next_checkpoint(),
        r.1.spec_id() == old(state).next_checkpoint(),
        final(state).next_checkpoint() == old(state).next_checkpoint().wrapping_add(1),
        final(state).server_count() == old(state).server_count(),
        final(state).client_count() == old(state).client_count(),
        final(state).trace_names() == old(state).trace_names(),
{
    let id = state.next_checkpoint_id();
    (Checkpoint::new(id), Checkpoint::new(id))
}

/// The state of one connection under construction: the operations of the
/// streams opened so far, as the peer runs them, by stream id (so the next
/// stream id is their number), and the scenario.
#[derive(Debug)]
pub struct ConnectionState {
    peer_streams: Vec<Vec<ConnectionOp>>,
    scenario: ScenarioState,
}

impl ConnectionState {
    pub closed spec fn stream_count(&self) -> nat {
        self.peer_streams@.len()
    }

    pub closed spec fn scenario(&self) -> ScenarioState {
        self.scenario
    }

    /// The operations the peer runs on stream `id`.
    pub closed spec fn peer_stream(&self, id: int) -> Seq<ConnectionOp> {
        self.peer_streams@[id]@
    }

    fn new(scenario: ScenarioState) -> (s: Self)
        ensures
            s.stream_count() == 0,
            s.scenario() == scenario,
    {
        ConnectionState { peer_streams: Vec::new(), scenario }
    }
}

} // verus!

verus! {

/// A server of the scenario, by id.
#[derive(Debug)]
pub struct Server {
    id: u64,
}

/// What a connection does, from the side of one endpoint: its operations
/// and those the peer runs on the streams it opens.
#[derive(Debug)]
pub struct ConnectionInfo {
    peer_streams: Vec<Vec<ConnectionOp>>,
    ops: Vec<ConnectionOp>,
}

impl ConnectionInfo {
    pub closed spec fn ops(&self) -> Seq<ConnectionOp> {
        self.ops@
    }

    pub closed spec fn stream_count(&self) -> nat {
        self.peer_streams@.len()
    }

    /// The ops run on each stream that the peer opens, by stream id.
    pub closed spec fn streams(&self) -> Seq<Vec<ConnectionOp>> {
        self.peer_streams@
    }
}

/// A connection template of one endpoint, `E`.
#[derive(Debug)]
pub struct Connection<E> {
    endpoint_id: u64,
    template: ConnectionInfo,
    endpoint: PhantomData<E>,
}

impl<E> Connection<E> {
    pub closed spec fn endpoint_id(&self) -> u64 {
        self.endpoint_id
    }

    pub closed spec fn template(&self) -> ConnectionInfo {
        self.template
    }
}

} // verus!

verus! {

/// Takes the scenario state out of `state`, leaving an empty one.
fn take_scenario(state: &mut ScenarioState) -> (s: ScenarioState)
    ensures
        s == *old(state),
{
    let mut s = ScenarioState::new();
    core::mem::swap(&mut s, state);
    s
}

/// Takes the connection state out of `state`, leaving an empty one.
fn take_connection(state: &mut ConnectionState) -> (s: ConnectionState)
    ensures
        s == *old(state),
{
    let mut s = ConnectionState::new(ScenarioState::new());
    core::mem::swap(&mut s, state);
    s
}

/// `ops` followed by a scope of `threads`: nothing for none, the ops of a
/// single thread in place, and a scope op otherwise.
pub open spec fn scoped(ops: Seq<ConnectionOp>, threads: Vec<Vec<ConnectionOp>>) -> Seq<ConnectionOp> {
    if threads@.len() == 0 {
        ops
    } else if threads@.len() == 1 {
        ops + threads@[0]@
    } else {
        ops.push(ConnectionOp::Scope { threads })
    }
}

/// Builds what one thread of a connection does.
#[derive(Debug)]
pub struct ConnectionBuilder<E> {
    ops: Vec<ConnectionOp>,
    state: ConnectionState,
    endpoint: PhantomData<E>,
}

impl<E: Endpoint> ConnectionBuilder<E> {
    /// The operations so far.
    pub closed spec fn ops(&self) -> Seq<ConnectionOp> {
        self.ops@
    }

    /// The operations so far, as the vector that holds them.
    pub closed spec fn ops_vec(&self) -> Vec<ConnectionOp> {
        self.ops
    }

    /// The state of the connection.
    pub closed spec fn state(&self) -> ConnectionState {
        self.state
    }

    fn new(state: ConnectionState) -> (b: Self)
        ensures
            b.ops() == Seq::<ConnectionOp>::empty(),
            b.state() == state,
    {
        ConnectionBuilder { ops: Vec::new(), state, endpoint: PhantomData }
    }

    /// A pair of checkpoints with a new id.
    pub fn checkpoint<Location>(&mut self) -> (r: (Checkpoint<E, Location, Park>, Checkpoint<E, Location, Unpark>))
        ensures
            r.0.spec_id() == old(self).state().scenario().next_checkpoint(),
            r.1.spec_id() == old(self).state().scenario().next_checkpoint(),
            final(self).state().scenario().next_checkpoint() == old(self).state().scenario().next_checkpoint().wrapping_add(1),
            final(self).state().stream_count() == old(self).state().stream_count(),
            final(self).ops() == old(self).ops(),
    {
        checkpoint_pair(&mut self.state.scenario)
    }

    /// Parks the thread until `checkpoint` is unparked.
    pub fn park(&mut self, checkpoint: Checkpoint<E, Local, Park>) -> (r: &mut Self)
        ensures
            r.ops() == old(self).ops().push(ConnectionOp::Park { checkpoint: checkpoint.spec_id() }),
            r.state() == old(self).state(),
            *final(self) == *final(r),
    {
        self.ops.push(ConnectionOp::Park { checkpoint: checkpoint.id() });
        self
    }

    /// Unparks the threads parked on `checkpoint`.
    pub fn unpark(&mut self, checkpoint: Checkpoint<E, Local, Unpark>) -> (r: &mut Self)
        ensures
            r.ops() == old(self).ops().push(ConnectionOp::Unpark { checkpoint: checkpoint.spec_id() }),
            r.state() == old(self).state(),
            *final(self) == *final(r),
    {
        self.ops.push(ConnectionOp::Unpark { checkpoint: checkpoint.id() });
        self
    }

    /// Pauses the thread for `amount`.
    pub fn sleep(&mut self, amount: Duration) -> (r: &mut Self)
        ensures
            r.ops() == old(self).ops().push(ConnectionOp::Sleep { amount }),
            r.state() == old(self).state(),
            *final(self) == *final(r),
    {
        self.ops.push(ConnectionOp::Sleep { amount });
        self
    }

    /// Emits the trace event `name`.
    pub fn trace(&mut self, name: &str) -> (r: &mut Self)
        ensures
            exists|id: u64| is_trace_id(old(self).state().scenario().trace_names(), name@, id as int)
                && r.ops() == old(self).ops().push(ConnectionOp::Trace { trace_id: id }),
            r.state().stream_count() == old(self).state().stream_count(),
            *final(self) == *final(r),
    {
        let trace_id = self.state.scenario.trace(name);
        self.ops.push(ConnectionOp::Trace { trace_id });
        assert(is_trace_id(old(self).state().scenario().trace_names(), name@, trace_id as int)
            && self.ops() == old(self).ops().push(ConnectionOp::Trace { trace_id }));
        self
    }

    /// Appends the threads of a scope: nothing for none, the ops of a
    /// single thread in place, and a scope op otherwise.
    fn close_scope(&mut self, threads: Vec<Vec<ConnectionOp>>)
        ensures
            final(self).state() == old(self).state(),
            final(self).ops() == scoped(old(self).ops(), threads),
    {
        if threads.len() == 0 {
        } else if threads.len() == 1 {
            let mut threads = threads;
            let mut thread = threads.pop().unwrap();
            self.ops.append(&mut thread);
        } else {
            self.ops.push(ConnectionOp::Scope { threads });
        }
    }

    /// Runs `f` on a scope whose spawned threads run concurrently; their
    /// ops are appended as `close_scope` says.
    pub fn scope<F: FnOnce(&mut Scope<E>)>(&mut self, f: F) -> (r: &mut Self)
        requires
            forall|s: &mut Scope<E>| f.requires((s,)),
        ensures
            exists|m: &mut Scope<E>| {
                &&& (*m).threads().len() == 0
                &&& (*m).state() == old(self).state()
                &&& f.ensures((m,), ())
                &&& r.ops() == scoped(old(self).ops(), (*final(m)).thread_vec())
                &&& r.state() == (*final(m)).state()
            },
            *final(self) == *final(r),
    {
        let state = take_connection(&mut self.state);
        let mut scope = Scope::new(state);
        f(&mut scope);
        let Scope { state, threads, .. } = scope;
        self.state = state;
        self.close_scope(threads);
        self
    }

    /// Runs `a` and `b` as two concurrent threads.
    pub fn concurrently<A: FnOnce(&mut ConnectionBuilder<E>), B: FnOnce(&mut ConnectionBuilder<E>)>(
        &mut self,
        a: A,
        b: B,
    ) -> (r: &mut Self)
        requires
            forall|c: &mut ConnectionBuilder<E>| a.requires((c,)),
            forall|c: &mut ConnectionBuilder<E>| b.requires((c,)),
        ensures
            exists|ma: &mut ConnectionBuilder<E>, mb: &mut ConnectionBuilder<E>| {
                &&& (*ma).ops().len() == 0
                &&& (*ma).state() == old(self).state()
                &&& a.ensures((ma,), ())
                &&& (*mb).ops().len() == 0
                &&& (*mb).state() == (*final(ma)).state()
                &&& b.ensures((mb,), ())
                &&& r.ops().len() == old(self).ops().len() + 1
                &&& r.ops().subrange(0, old(self).ops().len() as int) == old(self).ops()
                &&& r.ops().last() matches ConnectionOp::Scope { threads }
                    && threads@ == seq![(*final(ma)).ops_vec(), (*final(mb)).ops_vec()]
                &&& r.state() == (*final(mb)).state()
            },
            *final(self) == *final(r),
    {
        let state = take_connection(&mut self.state);
        let mut scope = Scope::new(state);
        scope.spawn(a);
        scope.spawn(b);
        let Scope { state, threads, .. } = scope;
        self.state = state;
        let ghost before = self.ops@;
        self.close_scope(threads);
        assert(self.ops@.subrange(0, before.len() as int) =~= before);
        self
    }

    /// Opens a bidirectional stream with the next stream id: `local` says
    /// what this endpoint does on it (its ops follow the opening op) and
    /// `remote` what the peer does, which becomes the peer's stream of
    /// that id.
    pub fn open_bidirectional_stream<L: FnOnce(&mut Stream<E, Local>), R: FnOnce(&mut Stream<E::Peer, Remote>)>(
        &mut self,
        local: L,
        remote: R,
    ) -> (r: &mut Self)
        requires
            forall|s: &mut Stream<E, Local>| local.requires((s,)),
            forall|s: &mut Stream<E::Peer, Remote>| remote.requires((s,)),
        ensures
            r.state().stream_count() == old(self).state().stream_count() + 1,
            forall|i: int| 0 <= i < old(self).state().stream_count() ==> #[trigger] r.state().peer_stream(i)
                == old(self).state().peer_stream(i),
            r.ops().len() > old(self).ops().len(),
            r.ops().subrange(0, old(self).ops().len() as int) == old(self).ops(),
            r.ops()[old(self).ops().len() as int] == (ConnectionOp::BidirectionalStream {
                stream_id: old(self).state().stream_count() as u64,
            }),
            *final(self) == *final(r),
            exists|ml: &mut Stream<E, Local>, mr: &mut Stream<E::Peer, Remote>| {
                &&& (*ml).id() == old(self).state().stream_count()
                &&& (*ml).ops() == Seq::<ConnectionOp>::empty()
                &&& (*ml).scenario() == old(self).state().scenario()
                &&& local.ensures((ml,), ())
                &&& (*mr).id() == old(self).state().stream_count()
                &&& (*mr).ops() == Seq::<ConnectionOp>::empty()
                &&& (*mr).scenario() == (*final(ml)).scenario()
                &&& remote.ensures((mr,), ())
                &&& r.ops() == old(self).ops().push(ConnectionOp::BidirectionalStream {
                    stream_id: old(self).state().stream_count() as u64,
                }) + (*final(ml)).ops()
                &&& r.state().peer_stream(old(self).state().stream_count() as int) == (*final(mr)).ops()
                &&& r.state().scenario() == (*final(mr)).scenario()
            },
    {
        let id = self.state.peer_streams.len() as u64;
        let scenario = take_scenario(&mut self.state.scenario);
        let mut local_stream = Stream::new(id, scenario);
        local(&mut local_stream);
        let Stream { ops: local_ops, state: scenario, .. } = local_stream;
        let mut remote_stream = Stream::new(id, scenario);
        remote(&mut remote_stream);
        let Stream { ops: remote_ops, state: scenario, .. } = remote_stream;
        self.state.scenario = scenario;
        let ghost before = self.ops@;
        self.ops.push(ConnectionOp::BidirectionalStream { stream_id: id });
        let mut local_ops = local_ops;
        self.ops.append(&mut local_ops);
        self.state.peer_streams.push(remote_ops);
        assert(self.ops@.subrange(0, before.len() as int) =~= before);
        self
    }

    /// Opens a send stream with the next stream id: `local` says what this
    /// endpoint sends on it and `remote` what the peer receives, which
    /// becomes the peer's stream of that id.
    pub fn open_send_stream<L: FnOnce(&mut SendStream<E, Local>), R: FnOnce(&mut ReceiveStream<E::Peer, Remote>)>(
        &mut self,
        local: L,
        remote: R,
    ) -> (r: &mut Self)
        requires
            forall|s: &mut SendStream<E, Local>| local.requires((s,)),
            forall|s: &mut ReceiveStream<E::Peer, Remote>| remote.requires((s,)),
        ensures
            r.state().stream_count() == old(self).state().stream_count() + 1,
            forall|i: int| 0 <= i < old(self).state().stream_count() ==> #[trigger] r.state().peer_stream(i)
                == old(self).state().peer_stream(i),
            r.ops().len() > old(self).ops().len(),
            r.ops().subrange(0, old(self).ops().len() as int) == old(self).ops(),
            r.ops()[old(self).ops().len() as int] == (ConnectionOp::SendStream {
                stream_id: old(self).state().stream_count() as u64,
            }),
            *final(self) == *final(r),
            exists|ml: &mut SendStream<E, Local>, mr: &mut ReceiveStream<E::Peer, Remote>| {
                &&& (*ml).id() == old(self).state().stream_count()
                &&& (*ml).ops() == Seq::<ConnectionOp>::empty()
                &&& (*ml).scenario() == old(self).state().scenario()
                &&& local.ensures((ml,), ())
                &&& (*mr).id() == old(self).state().stream_count()
                &&& (*mr).ops() == Seq::<ConnectionOp>::empty()
                &&& (*mr).scenario() == (*final(ml)).scenario()
                &&& remote.ensures((mr,), ())
                &&& r.ops() == old(self).ops().push(ConnectionOp::SendStream {
                    stream_id: old(self).state().stream_count() as u64,
                }) + (*final(ml)).ops()
                &&& r.state().peer_stream(old(self).state().stream_count() as int) == (*final(mr)).ops()
                &&& r.state().scenario() == (*final(mr)).scenario()
            },
    {
        let id = self.state.peer_streams.len() as u64;
        let scenario = take_scenario(&mut self.state.scenario);
        let mut local_stream = SendStream::new(id, scenario);
        local(&mut local_stream);
        let SendStream { ops: local_ops, state: scenario, .. } = local_stream;
        let mut remote_stream = ReceiveStream::new(id, scenario);
        remote(&mut remote_stream);
        let ReceiveStream { ops: remote_ops, state: scenario, .. } = remote_stream;
        self.state.scenario = scenario;
        let ghost before = self.ops@;
        self.ops.push(ConnectionOp::SendStream { stream_id: id });
        let mut local_ops = local_ops;
        self.ops.append(&mut local_ops);
        self.state.peer_streams.push(remote_ops);
        assert(self.ops@.subrange(0, before.len() as int) =~= before);
        self
    }

    /// What the connection does, and the scenario state handed back.
    fn finish(self) -> (r: (ConnectionInfo, ScenarioState))
        ensures
            r.0.ops() == self.ops(),
            r.0.stream_count() == self.state().stream_count(),
            r.1 == self.state().scenario(),
    {
        let ConnectionBuilder { ops, state, .. } = self;
        let ConnectionState { peer_streams, scenario } = state;
        (ConnectionInfo { peer_streams, ops }, scenario)
    }
}

/// Threads spawned to run concurrently.
pub struct Scope<E> {
    state: ConnectionState,
    threads: Vec<Vec<ConnectionOp>>,
    endpoint: PhantomData<E>,
}

impl<E: Endpoint> Scope<E> {
    /// The threads spawned so far.
    pub closed spec fn threads(&self) -> Seq<Vec<ConnectionOp>> {
        self.threads@
    }

    /// The threads spawned so far, as the vector that holds them.
    pub closed spec fn thread_vec(&self) -> Vec<Vec<ConnectionOp>> {
        self.threads
    }

    /// The state of the connection.
    pub closed spec fn state(&self) -> ConnectionState {
        self.state
    }

    fn new(state: ConnectionState) -> (s: Self)
        ensures
            s.threads().len() == 0,
            s.state() == state,
    {
        Scope { state, threads: Vec::new(), endpoint: PhantomData }
    }

    /// Spawns a thread whose ops `f` builds.
    pub fn spawn<F: FnOnce(&mut ConnectionBuilder<E>)>(&mut self, f: F) -> (r: &mut Self)
        requires
            forall|c: &mut ConnectionBuilder<E>| f.requires((c,)),
        ensures
            exists|m: &mut ConnectionBuilder<E>| {
                &&& (*m).ops().len() == 0
                &&& (*m).state() == old(self).state()
                &&& f.ensures((m,), ())
                &&& r.threads() == old(self).threads().push((*final(m)).ops_vec())
                &&& r.state() == (*final(m)).state()
            },
            *final(self) == *final(r),
    {
        let state = take_connection(&mut self.state);
        let mut builder = ConnectionBuilder::new(state);
        f(&mut builder);
        let ConnectionBuilder { ops, state, .. } = builder;
        self.state = state;
        self.threads.push(ops);
        self
    }
}

} // verus!

verus! {

/// Builds what happens on one side of a bidirectional stream.
pub struct Stream<Endpoint, Location> {
    id: u64,
    ops: Vec<ConnectionOp>,
    state: ScenarioState,
    endpoint: PhantomData<Endpoint>,
    location: PhantomData<Location>,
}

impl<Endpoint, Location> Stream<Endpoint, Location> {
    /// The stream id.
    pub closed spec fn id(&self) -> u64 {
        self.id
    }

    /// The operations so far.
    pub closed spec fn ops(&self) -> Seq<ConnectionOp> {
        self.ops@
    }

    /// The state of the scenario.
    pub closed spec fn scenario(&self) -> ScenarioState {
        self.state
    }

    fn new(id: u64, state: ScenarioState) -> (s: Self)
        ensures
            s.id() == id,
            s.ops() == Seq::<ConnectionOp>::empty(),
            s.scenario() == state,
    {
        Stream { id, ops: Vec::new(), state, endpoint: PhantomData, location: PhantomData }
    }

    /// Sends `bytes` bytes.
    pub fn send(&mut self, bytes: u64) -> (r: &mut Self)
        ensures
            r.ops() == old(self).ops().push(ConnectionOp::Send { stream_id: old(self).id(), bytes }),
            r.id() == old(self).id(),
            r.scenario() == old(self).scenario(),
            *final(self) == *final(r),
    {
        self.ops.push(ConnectionOp::Send { stream_id: self.id, bytes });
        self
    }

    /// Limits sending to `bytes` bytes every `period`.
    pub fn set_send_rate(&mut self, bytes: u64, period: Duration) -> (r: &mut Self)
        ensures
            r.ops() == old(self).ops().push(ConnectionOp::SendRate { stream_id: old(self).id(), bytes, period }),
            r.id() == old(self).id(),
            r.scenario() == old(self).scenario(),
            *final(self) == *final(r),
    {
        self.ops.push(ConnectionOp::SendRate { stream_id: self.id, bytes, period });
        self
    }

    /// Receives `bytes` bytes.
    pub fn receive(&mut self, bytes: u64) -> (r: &mut Self)
        ensures
            r.ops() == old(self).ops().push(ConnectionOp::Receive { stream_id: old(self).id(), bytes }),
            r.id() == old(self).id(),
            r.scenario() == old(self).scenario(),
            *final(self) == *final(r),
    {
        self.ops.push(ConnectionOp::Receive { stream_id: self.id, bytes });
        self
    }

    /// Limits receiving to `bytes` bytes every `period`.
    pub fn set_receive_rate(&mut self, bytes: u64, period: Duration) -> (r: &mut Self)
        ensures
            r.ops() == old(self).ops().push(ConnectionOp::ReceiveRate { stream_id: old(self).id(), bytes, period }),
            r.id() == old(self).id(),
            r.scenario() == old(self).scenario(),
            *final(self) == *final(r),
    {
        self.ops.push(ConnectionOp::ReceiveRate { stream_id: self.id, bytes, period });
        self
    }

    /// Receives until the peer finishes the stream.
    pub fn receive_all(&mut self) -> (r: &mut Self)
        ensures
            r.ops() == old(self).ops().push(ConnectionOp::ReceiveAll { stream_id: old(self).id() }),
            r.id() == old(self).id(),
            r.scenario() == old(self).scenario(),
            *final(self) == *final(r),
    {
        self.ops.push(ConnectionOp::ReceiveAll { stream_id: self.id });
        self
    }

    /// Parks until `checkpoint` is unparked.
    pub fn park(&mut self, checkpoint: Checkpoint<Endpoint, Location, Park>) -> (r: &mut Self)
        ensures
            r.ops() == old(self).ops().push(ConnectionOp::Park { checkpoint: checkpoint.spec_id() }),
            r.id() == old(self).id(),
            r.scenario() == old(self).scenario(),
            *final(self) == *final(r),
    {
        self.ops.push(ConnectionOp::Park { checkpoint: checkpoint.id() });
        self
    }

    /// Unparks what is parked on `checkpoint`.
    pub fn unpark(&mut self, checkpoint: Checkpoint<Endpoint, Location, Unpark>) -> (r: &mut Self)
        ensures
            r.ops() == old(self).ops().push(ConnectionOp::Unpark { checkpoint: checkpoint.spec_id() }),
            r.id() == old(self).id(),
            r.scenario() == old(self).scenario(),
            *final(self) == *final(r),
    {
        self.ops.push(ConnectionOp::Unpark { checkpoint: checkpoint.id() });
        self
    }

    /// Pauses for `amount`.
    pub fn sleep(&mut self, amount: Duration) -> (r: &mut Self)
        ensures
            r.ops() == old(self).ops().push(ConnectionOp::Sleep { amount }),
            r.id() == old(self).id(),
            r.scenario() == old(self).scenario(),
            *final(self) == *final(r),
    {
        self.ops.push(ConnectionOp::Sleep { amount });
        self
    }

    /// Emits the trace event `name`.
    pub fn trace(&mut self, name: &str) -> (r: &mut Self)
        ensures
            exists|id: u64| is_trace_id(old(self).scenario().trace_names(), name@, id as int)
                && r.ops() == old(self).ops().push(ConnectionOp::Trace { trace_id: id }),
            r.id() == old(self).id(),
            *final(self) == *final(r),
    {
        let trace_id = self.state.trace(name);
        self.ops.push(ConnectionOp::Trace { trace_id });
        assert(is_trace_id(old(self).scenario().trace_names(), name@, trace_id as int)
            && self.ops() == old(self).ops().push(ConnectionOp::Trace { trace_id }));
        self
    }

    /// Sends and receives concurrently: a scope of two threads, the one
    /// `send` builds and the one `receive` builds.
    pub fn concurrently<S: FnOnce(&mut SendStream<Endpoint, Location>), R: FnOnce(&mut ReceiveStream<Endpoint, Location>)>(
        &mut self,
        send: S,
        receive: R,
    ) -> (r: &mut Self)
        requires
            forall|s: &mut SendStream<Endpoint, Location>| send.requires((s,)),
            forall|s: &mut ReceiveStream<Endpoint, Location>| receive.requires((s,)),
        ensures
            r.ops().len() == old(self).ops().len() + 1,
            r.ops().subrange(0, old(self).ops().len() as int) == old(self).ops(),
            r.ops().last() matches ConnectionOp::Scope { threads } && threads@.len() == 2,
            r.id() == old(self).id(),
            *final(self) == *final(r),
    {
        let scenario = take_scenario(&mut self.state);
        let mut send_stream = SendStream::new(self.id, scenario);
        send(&mut send_stream);
        let SendStream { ops: send_ops, state: scenario, .. } = send_stream;
        let mut receive_stream = ReceiveStream::new(self.id, scenario);
        receive(&mut receive_stream);
        let ReceiveStream { ops: receive_ops, state: scenario, .. } = receive_stream;
        self.state = scenario;
        let threads = vec![send_ops, receive_ops];
        let ghost before = self.ops@;
        self.ops.push(ConnectionOp::Scope { threads });
        assert(self.ops@.subrange(0, before.len() as int) =~= before);
        self
    }
}

/// Builds what happens on the sending side of a stream.
pub struct SendStream<Endpoint, Location> {
    id: u64,
    ops: Vec<ConnectionOp>,
    state: ScenarioState,
    endpoint: PhantomData<Endpoint>,
    location: PhantomData<Location>,
}

impl<Endpoint, Location> SendStream<Endpoint, Location> {
    /// The stream id.
    pub closed spec fn id(&self) -> u64 {
        self.id
    }

    /// The operations so far.
    pub closed spec fn ops(&self) -> Seq<ConnectionOp> {
        self.ops@
    }

    /// The state of the scenario.
    pub closed spec fn scenario(&self) -> ScenarioState {
        self.state
    }

    fn new(id: u64, state: ScenarioState) -> (s: Self)
        ensures
            s.id() == id,
            s.ops() == Seq::<ConnectionOp>::empty(),
            s.scenario() == state,
    {
        SendStream { id, ops: Vec::new(), state, endpoint: PhantomData, location: PhantomData }
    }

    /// Sends `bytes` bytes.
    pub fn send(&mut self, bytes: u64) -> (r: &mut Self)
        ensures
            r.ops() == old(self).ops().push(ConnectionOp::Send { stream_id: old(self).id(), bytes }),
            r.id() == old(self).id(),
            r.scenario() == old(self).scenario(),
            *final(self) == *final(r),
    {
        self.ops.push(ConnectionOp::Send { stream_id: self.id, bytes });
        self
    }

    /// Limits sending to `bytes` bytes every `period`.
    pub fn set_send_rate(&mut self, bytes: u64, period: Duration) -> (r: &mut Self)
        ensures
            r.ops() == old(self).ops().push(ConnectionOp::SendRate { stream_id: old(self).id(), bytes, period }),
            r.id() == old(self).id(),
            r.scenario() == old(self).scenario(),
            *final(self) == *final(r),
    {
        self.ops.push(ConnectionOp::SendRate { stream_id: self.id, bytes, period });
        self
    }

    /// Parks until `checkpoint` is unparked.
    pub fn park(&mut self, checkpoint: Checkpoint<Endpoint, Location, Park>) -> (r: &mut Self)
        ensures
            r.ops() == old(self).ops().push(ConnectionOp::Park { checkpoint: checkpoint.spec_id() }),
            r.id() == old(self).id(),
            r.scenario() == old(self).scenario(),
            *final(self) == *final(r),
    {
        self.ops.push(ConnectionOp::Park { checkpoint: checkpoint.id() });
        self
    }

    /// Unparks what is parked on `checkpoint`.
    pub fn unpark(&mut self, checkpoint: Checkpoint<Endpoint, Location, Unpark>) -> (r: &mut Self)
        ensures
            r.ops() == old(self).ops().push(ConnectionOp::Unpark { checkpoint: checkpoint.spec_id() }),
            r.id() == old(self).id(),
            r.scenario() == old(self).scenario(),
            *final(self) == *final(r),
    {
        self.ops.push(ConnectionOp::Unpark { checkpoint: checkpoint.id() });
        self
    }

    /// Pauses for `amount`.
    pub fn sleep(&mut self, amount: Duration) -> (r: &mut Self)
        ensures
            r.ops() == old(self).ops().push(ConnectionOp::Sleep { amount }),
            r.id() == old(self).id(),
            r.scenario() == old(self).scenario(),
            *final(self) == *final(r),
    {
        self.ops.push(ConnectionOp::Sleep { amount });
        self
    }

    /// Emits the trace event `name`.
    pub fn trace(&mut self, name: &str) -> (r: &mut Self)
        ensures
            exists|id: u64| is_trace_id(old(self).scenario().trace_names(), name@, id as int)
                && r.ops() == old(self).ops().push(ConnectionOp::Trace { trace_id: id }),
            r.id() == old(self).id(),
            *final(self) == *final(r),
    {
        let trace_id = self.state.trace(name);
        self.ops.push(ConnectionOp::Trace { trace_id });
        assert(is_trace_id(old(self).scenario().trace_names(), name@, trace_id as int)
            && self.ops() == old(self).ops().push(ConnectionOp::Trace { trace_id }));
        self
    }
}

/// Builds what happens on the receiving side of a stream.
pub struct ReceiveStream<Endpoint, Location> {
    id: u64,
    ops: Vec<ConnectionOp>,
    state: ScenarioState,
    endpoint: PhantomData<Endpoint>,
    location: PhantomData<Location>,
}

impl<Endpoint, Location> ReceiveStream<Endpoint, Location> {
    /// The stream id.
    pub closed spec fn id(&self) -> u64 {
        self.id
    }

    /// The operations so far.
    pub closed spec fn ops(&self) -> Seq<ConnectionOp> {
        self.ops@
    }

    /// The state of the scenario.
    pub closed spec fn scenario(&self) -> ScenarioState {
        self.state
    }

    fn new(id: u64, state: ScenarioState) -> (s: Self)
        ensures
            s.id() == id,
            s.ops() == Seq::<ConnectionOp>::empty(),
            s.scenario() == state,
    {
        ReceiveStream { id, ops: Vec::new(), state, endpoint: PhantomData, location: PhantomData }
    }

    /// Receives `bytes` bytes.
    pub fn receive(&mut self, bytes: u64) -> (r: &mut Self)
        ensures
            r.ops() == old(self).ops().push(ConnectionOp::Receive { stream_id: old(self).id(), bytes }),
            r.id() == old(self).id(),
            r.scenario() == old(self).scenario(),
            *final(self) == *final(r),
    {
        self.ops.push(ConnectionOp::Receive { stream_id: self.id, bytes });
        self
    }

    /// Limits receiving to `bytes` bytes every `period`.
    pub fn set_receive_rate(&mut self, bytes: u64, period: Duration) -> (r: &mut Self)
        ensures
            r.ops() == old(self).ops().push(ConnectionOp::ReceiveRate { stream_id: old(self).id(), bytes, period }),
            r.id() == old(self).id(),
            r.scenario() == old(self).scenario(),
            *final(self) == *final(r),
    {
        self.ops.push(ConnectionOp::ReceiveRate { stream_id: self.id, bytes, period });
        self
    }

    /// Receives until the peer finishes the stream.
    pub fn receive_all(&mut self) -> (r: &mut Self)
        ensures
            r.ops() == old(self).ops().push(ConnectionOp::ReceiveAll { stream_id: old(self).id() }),
            r.id() == old(self).id(),
            r.scenario() == old(self).scenario(),
            *final(self) == *final(r),
    {
        self.ops.push(ConnectionOp::ReceiveAll { stream_id: self.id });
        self
    }

    /// Parks until `checkpoint` is unparked.
    pub fn park(&mut self, checkpoint: Checkpoint<Endpoint, Location, Park>) -> (r: &mut Self)
        ensures
            r.ops() == old(self).ops().push(ConnectionOp::Park { checkpoint: checkpoint.spec_id() }),
            r.id() == old(self).id(),
            r.scenario() == old(self).scenario(),
            *final(self) == *final(r),
    {
        self.ops.push(ConnectionOp::Park { checkpoint: checkpoint.id() });
        self
    }

    /// Unparks what is parked on `checkpoint`.
    pub fn unpark(&mut self, checkpoint: Checkpoint<Endpoint, Location, Unpark>) -> (r: &mut Self)
        ensures
            r.ops() == old(self).ops().push(ConnectionOp::Unpark { checkpoint: checkpoint.spec_id() }),
            r.id() == old(self).id(),
            r.scenario() == old(self).scenario(),
            *final(self) == *final(r),
    {
        self.ops.push(ConnectionOp::Unpark { checkpoint: checkpoint.id() });
        self
    }

    /// Pauses for `amount`.
    pub fn sleep(&mut self, amount: Duration) -> (r: &mut Self)
        ensures
            r.ops() == old(self).ops().push(ConnectionOp::Sleep { amount }),
            r.id() == old(self).id(),
            r.scenario() == old(self).scenario(),
            *final(self) == *final(r),
    {
        self.ops.push(ConnectionOp::Sleep { amount });
        self
    }

    /// Emits the trace event `name`.
    pub fn trace(&mut self, name: &str) -> (r: &mut Self)
        ensures
            exists|id: u64| is_trace_id(old(self).scenario().trace_names(), name@, id as int)
                && r.ops() == old(self).ops().push(ConnectionOp::Trace { trace_id: id }),
            r.id() == old(self).id(),
            *final(self) == *final(r),
    {
        let trace_id = self.state.trace(name);
        self.ops.push(ConnectionOp::Trace { trace_id });
        assert(is_trace_id(old(self).scenario().trace_names(), name@, trace_id as int)
            && self.ops() == old(self).ops().push(ConnectionOp::Trace { trace_id }));
        self
    }
}

} // verus!

verus! {

/// A copy of `ops`, op by op.
fn clone_ops(ops: &Vec<ConnectionOp>) -> (r: Vec<ConnectionOp>)
    ensures
        r@.len() == ops@.len(),
        forall|i: int| 0 <= i < ops@.len() ==> copies(ops@[i], #[trigger] r@[i]),
{
    let mut r: Vec<ConnectionOp> = Vec::new();
    let mut i: usize = 0;
    while i < ops.len()
        invariant
            i <= ops@.len(),
            r@.len() == i,
            forall|k: int| 0 <= k < i ==> copies(ops@[k], #[trigger] r@[k]),
        decreases ops@.len() - i,
    {
        r.push(ops[i].clone());
        i = i + 1;
    }
    r
}

/// A copy of the stream ops `streams`, stream by stream.
fn clone_streams(streams: &Vec<Vec<ConnectionOp>>) -> (r: Vec<Vec<ConnectionOp>>)
    ensures
        r@.len() == streams@.len(),
        forall|i: int| 0 <= i < streams@.len() ==> #[trigger] r@[i]@.len() == streams@[i]@.len(),
        forall|i: int, j: int|
            0 <= i < streams@.len() && 0 <= j < streams@[i]@.len() ==> copies(streams@[i]@[j], #[trigger] r@[i]@[j]),
{
    let mut r: Vec<Vec<ConnectionOp>> = Vec::new();
    let mut i: usize = 0;
    while i < streams.len()
        invariant
            i <= streams@.len(),
            r@.len() == i,
            forall|k: int| 0 <= k < i ==> #[trigger] r@[k]@.len() == streams@[k]@.len(),
            forall|k: int, j: int|
                0 <= k < i && 0 <= j < streams@[k]@.len() ==> copies(streams@[k]@[j], #[trigger] r@[k]@[j]),
        decreases streams@.len() - i,
    {
        r.push(clone_ops(&streams[i]));
        i = i + 1;
    }
    r
}

impl ScenarioState {
    /// Records a connection between server `server_id`, which runs `server`,
    /// and client `client_id`, which runs `client`: each gets its own ops
    /// and the peer streams the other opens. `None` when either endpoint is
    /// not in this scenario.
    fn connect(&mut self, server_id: u64, server: &ConnectionInfo, client_id: u64, client: &ConnectionInfo) -> (r: Option<ClientOp>)
        ensures
            final(self).next_checkpoint() == old(self).next_checkpoint(),
            final(self).trace_names() == old(self).trace_names(),
            final(self).server_count() == old(self).server_count(),
            final(self).client_count() == old(self).client_count(),
            (server_id < old(self).server_count() && client_id < old(self).client_count()) <==> r is Some,
            r matches Some(op) ==> op == (ClientOp::Connect {
                server_id,
                router_id: None,
                server_connection_id: old(self).server_connections(server_id as int) as u64,
                client_connection_id: old(self).client_connections(client_id as int) as u64,
            }),
            r is Some ==> final(self).server_connections(server_id as int) == old(self).server_connections(server_id as int) + 1,
            r is Some ==> final(self).client_connections(client_id as int) == old(self).client_connections(client_id as int) + 1,
            r is Some ==> final(self).adds_connection(*old(self), server_id as int, server.ops(), server.streams(),
                client_id as int, client.ops(), client.streams()),
            r is None ==> *final(self) == *old(self),
    {
        if server_id >= self.servers.len() as u64 || client_id >= self.clients.len() as u64 {
            return None;
        }
        let ghost names = self.trace_names();
        let si = server_id as usize;
        let ci = client_id as usize;
        let mut s = self.servers.remove(si);
        let ghost s0 = s;
        let server_connection_id = s.connections.len() as u64;
        s.connections.push(ConnectionTemplate { ops: clone_ops(&server.ops), peer_streams: clone_streams(&client.peer_streams) });
        self.servers.insert(si, s);
        assert(self.clients@ == old(self).clients@);
        let mut c = self.clients.remove(ci);
        let ghost c0 = c;
        let client_connection_id = c.connections.len() as u64;
        c.connections.push(ConnectionTemplate { ops: clone_ops(&client.ops), peer_streams: clone_streams(&server.peer_streams) });
        self.clients.insert(ci, c);
        assert(self.trace_names() =~= names);
        assert(self.servers@[si as int] == s);
        assert(self.clients@[ci as int] == c);
        proof {
            assert(s.connections@.drop_last() =~= s0.connections@);
            assert(c.connections@.drop_last() =~= c0.connections@);
            assert(self.servers@ =~= old(self).servers@.update(si as int, s));
            assert(self.clients@ =~= old(self).clients@.update(ci as int, c));
        }
        Some(ClientOp::Connect { server_id, router_id: None, server_connection_id, client_connection_id })
    }
}

/// What can be connected to from a client: a server, or a connection
/// template of a server.
pub trait Connect<E> {
    /// The server that is connected to.
    spec fn server_of(&self) -> u64;

    /// What the server does on the connection.
    spec fn server_ops(&self) -> Seq<ConnectionOp>;

    /// What the server does on each stream that the client opens.
    spec fn server_streams(&self) -> Seq<Vec<ConnectionOp>>;

    /// Records the connection of `handle` to this in `state`, and returns
    /// the client op that opens it; `None`, with `state` unchanged, when the
    /// server or the client is not in `state`.
    fn connect_to(&self, state: &mut ScenarioState, handle: &Connection<E>) -> (r: Option<ClientOp>)
        ensures
            (self.server_of() < old(state).server_count() && handle.endpoint_id() < old(state).client_count())
                <==> r is Some,
            r is None ==> *final(state) == *old(state),
            r is Some ==> r == Some(ClientOp::Connect {
                server_id: self.server_of(),
                router_id: None,
                server_connection_id: old(state).server_connections(self.server_of() as int) as u64,
                client_connection_id: old(state).client_connections(handle.endpoint_id() as int) as u64,
            }),
            r is Some ==> final(state).adds_connection(*old(state), self.server_of() as int, self.server_ops(),
                self.server_streams(), handle.endpoint_id() as int, handle.template().ops(), handle.template().streams()),
            r is Some ==> final(state).server_connections(self.server_of() as int)
                == old(state).server_connections(self.server_of() as int) + 1,
            r is Some ==> final(state).client_connections(handle.endpoint_id() as int)
                == old(state).client_connections(handle.endpoint_id() as int) + 1;
}

impl Connect<Client> for Connection<Server> {
    open spec fn server_of(&self) -> u64 {
        self.endpoint_id()
    }

    open spec fn server_ops(&self) -> Seq<ConnectionOp> {
        self.template().ops()
    }

    open spec fn server_streams(&self) -> Seq<Vec<ConnectionOp>> {
        self.template().streams()
    }

    fn connect_to(&self, state: &mut ScenarioState, handle: &Connection<Client>) -> (r: Option<ClientOp>) {
        state.connect(self.endpoint_id, &self.template, handle.endpoint_id, &handle.template)
    }
}

impl Connect<Client> for Server {
    open spec fn server_of(&self) -> u64 {
        self.spec_id()
    }

    open spec fn server_ops(&self) -> Seq<ConnectionOp> {
        Seq::<ConnectionOp>::empty()
    }

    open spec fn server_streams(&self) -> Seq<Vec<ConnectionOp>> {
        Seq::<Vec<ConnectionOp>>::empty()
    }

    fn connect_to(&self, state: &mut ScenarioState, handle: &Connection<Client>) -> (r: Option<ClientOp>) {
        let empty = ConnectionInfo { peer_streams: Vec::new(), ops: Vec::new() };
        assert(empty.ops() =~= Seq::<ConnectionOp>::empty());
        assert(empty.streams() =~= Seq::<Vec<ConnectionOp>>::empty());
        state.connect(self.id, &empty, handle.endpoint_id, &handle.template)
    }
}

impl Server {
    pub closed spec fn spec_id(&self) -> u64 {
        self.id
    }

    /// The server id.
    pub fn id(&self) -> (id: u64)
        ensures
            id == self.spec_id(),
    {
        self.id
    }

    /// A connection template of this server, whose ops `f` builds.
    pub fn with<F: FnOnce(&mut ConnectionBuilder<Server>)>(&self, scenario: &mut ScenarioBuilder, f: F) -> (c: Connection<Server>)
        requires
            forall|b: &mut ConnectionBuilder<Server>| f.requires((b,)),
        ensures
            c.endpoint_id() == self.spec_id(),
    {
        let state = take_scenario(&mut scenario.state);
        let mut builder = ConnectionBuilder::new(ConnectionState::new(state));
        f(&mut builder);
        let (template, state) = builder.finish();
        scenario.state = state;
        Connection { endpoint_id: self.id, template, endpoint: PhantomData }
    }
}

/// Builds what a client does.
#[derive(Debug)]
pub struct ClientBuilder {
    id: u64,
    state: ScenarioState,
    ops: Vec<ClientOp>,
}

impl ClientBuilder {
    pub closed spec fn spec_id(&self) -> u64 {
        self.id
    }

    /// The state of the scenario.
    pub closed spec fn state(&self) -> ScenarioState {
        self.state
    }

    /// The client ops so far.
    pub closed spec fn ops(&self) -> Seq<ClientOp> {
        self.ops@
    }

    fn new(id: u64, state: ScenarioState) -> (b: Self)
        ensures
            b.spec_id() == id,
            b.ops() == Seq::<ClientOp>::empty(),
            b.state() == state,
    {
        ClientBuilder { id, state, ops: Vec::new() }
    }

    /// Opens a connection to `to`; `f` builds what the client does on it.
    /// The op that opens it is appended unless `to` or this client is not
    /// in the scenario.
    pub fn connect_to<F: FnOnce(&mut ConnectionBuilder<Client>), To: Connect<Client>>(&mut self, to: To, f: F) -> (c: Connection<Client>)
        requires
            forall|b: &mut ConnectionBuilder<Client>| f.requires((b,)),
        ensures
            c.endpoint_id() == old(self).spec_id(),
            final(self).spec_id() == old(self).spec_id(),
            (final(self).ops() == old(self).ops()) <==> !(to.server_of() < final(self).state().server_count()
                && old(self).spec_id() < final(self).state().client_count()),
            final(self).ops() != old(self).ops() ==> final(self).ops() == old(self).ops().push(ClientOp::Connect {
                server_id: to.server_of(),
                router_id: None,
                server_connection_id: (final(self).state().server_connections(to.server_of() as int) - 1) as u64,
                client_connection_id: (final(self).state().client_connections(old(self).spec_id() as int) - 1) as u64,
            }),
            final(self).ops() != old(self).ops() ==> exists|before: ScenarioState| #[trigger] final(self).state().adds_connection(
                before, to.server_of() as int, to.server_ops(), to.server_streams(), old(self).spec_id() as int,
                c.template().ops(), c.template().streams()),
    {
        let state = take_scenario(&mut self.state);
        let mut builder = ConnectionBuilder::new(ConnectionState::new(state));
        f(&mut builder);
        let (template, state) = builder.finish();
        self.state = state;
        let connection = Connection { endpoint_id: self.id, template, endpoint: PhantomData };
        let ghost mid = self.state;
        if let Some(op) = to.connect_to(&mut self.state, &connection) {
            self.ops.push(op);
            assert(self.ops@.len() == old(self).ops@.len() + 1);
            assert(self.state.adds_connection(mid, to.server_of() as int, to.server_ops(), to.server_streams(),
                self.id as int, connection.template().ops(), connection.template().streams()));
        }
        connection
    }

    /// A pair of checkpoints with a new id.
    pub fn checkpoint(&mut self) -> (r: (Checkpoint<Client, Local, Park>, Checkpoint<Client, Local, Unpark>))
        ensures
            r.0.spec_id() == old(self).state().next_checkpoint(),
            r.1.spec_id() == old(self).state().next_checkpoint(),
            final(self).ops() == old(self).ops(),
            final(self).spec_id() == old(self).spec_id(),
    {
        checkpoint_pair(&mut self.state)
    }
}

/// Builds a scenario.
#[derive(Debug)]
pub struct ScenarioBuilder {
    state: ScenarioState,
}

impl ScenarioBuilder {
    pub closed spec fn state(&self) -> ScenarioState {
        self.state
    }

    /// An empty scenario.
    pub fn new() -> (b: Self)
        ensures
            b.state().server_count() == 0,
            b.state().client_count() == 0,
            b.state().next_checkpoint() == 0,
            b.state().trace_names() == Seq::<Seq<char>>::empty(),
    {
        ScenarioBuilder { state: ScenarioState::new() }
    }

    /// Adds a server, whose id is the number of servers before it.
    pub fn create_server(&mut self) -> (s: Server)
        ensures
            s.spec_id() == old(self).state().server_count(),
            final(self).state().server_count() == old(self).state().server_count() + 1,
            final(self).state().client_count() == old(self).state().client_count(),
            final(self).state().server_connections(s.spec_id() as int) == 0,
    {
        let id = self.state.servers.len() as u64;
        self.state.servers.push(ServerInfo { connections: Vec::new() });
        Server { id }
    }

    /// Adds a client, whose id is the number of clients before it; `f`
    /// builds what it does.
    pub fn create_client<F: FnOnce(&mut ClientBuilder)>(&mut self, f: F)
        requires
            forall|b: &mut ClientBuilder| f.requires((b,)),
        ensures
            exists|m: &mut ClientBuilder| {
                &&& (*m).spec_id() == old(self).state().client_count()
                &&& (*m).ops() == Seq::<ClientOp>::empty()
                &&& (*m).state().adds_client(old(self).state())
                &&& f.ensures((m,), ())
                &&& final(self).state().same_but_client_ops((*final(m)).state(), (*m).spec_id() as int)
                &&& (*m).spec_id() < (*final(m)).state().client_count()
                    ==> final(self).state().client_ops((*m).spec_id() as int) == (*final(m)).ops()
            },
    {
        let id = self.state.clients.len() as u64;
        let ghost s0 = self.state;
        self.state.clients.push(ClientInfo { name: String::new(), scenario: Vec::new(), connections: Vec::new() });
        proof {
            assert(self.state.clients@.subrange(0, s0.clients@.len() as int) =~= s0.clients@);
        }
        let state = take_scenario(&mut self.state);
        let mut builder = ClientBuilder::new(id, state);
        f(&mut builder);
        let ClientBuilder { state, ops, .. } = builder;
        self.state = state;
        if (id as usize) < self.state.clients.len() {
            let mut c = self.state.clients.remove(id as usize);
            c.scenario = ops;
            self.state.clients.insert(id as usize, c);
        }
    }

    /// The scenario built: its clients, servers and trace names, and as
    /// its id the digest of their description.
    pub fn finish(self) -> (s: Scenario)
        ensures
            s.id@ == hex(sha256(scenario_enc(s.clients@, s.servers@, s.traces@))),
            s.clients@ == self.state().client_list(),
            s.servers@ == self.state().server_list(),
            s.clients@.len() == self.state().client_count(),
            s.servers@.len() == self.state().server_count(),
            s.traces@.map_values(|t: String| t@) == self.state().trace_names(),
    {
        let ScenarioBuilder { state } = self;
        let ScenarioState { clients, servers, traces, .. } = state;
        let bytes = scenario_bytes(&clients, &servers, &traces);
        let mut hash = ScenarioId::hasher();
        hash.write(bytes.as_slice());
        assert(hash@ =~= scenario_enc(clients@, servers@, traces@));
        let id = hash.finish();
        Scenario { id, clients, servers, traces }
    }
}

} // verus!
