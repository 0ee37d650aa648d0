//! A benchmark scenario: what every client and server does.

use crate::op::{hex, sha256, ClientOp, ConnectionOp, ScenarioId};
use crate::scenario::builder::ScenarioBuilder;
use crate::scenario::encode::scenario_enc;
use vstd::prelude::*;

pub mod builder;
pub mod encode;

verus! {

/// A complete scenario: its id, its clients and servers, and the names of
/// its trace events, by trace id.
#[derive(Debug)]
pub struct Scenario {
    pub id: ScenarioId,
    pub clients: Vec<Client>,
    pub servers: Vec<Server>,
    pub traces: Vec<String>,
}

impl Scenario {
    /// The scenario that `f` describes; its id is the digest of what it
    /// holds.
    pub fn build<F: FnOnce(&mut ScenarioBuilder)>(f: F) -> (s: Scenario)
        requires
            forall|b: &mut ScenarioBuilder| f.requires((b,)),
        ensures
            s.id@ == hex(sha256(scenario_enc(s.clients@, s.servers@, s.traces@))),
    {
        let mut builder = ScenarioBuilder::new();
        f(&mut builder);
        builder.finish()
    }
}

/// A client: its own operations and, by connection id, what it does on
/// each of its connections.
#[derive(Debug)]
pub struct Client {
    pub name: String,
    pub scenario: Vec<ClientOp>,
    pub connections: Vec<Connection>,
}

/// A server: what it does on each connection a client opens to it, by
/// connection id.
#[derive(Debug)]
pub struct Server {
    pub connections: Vec<Connection>,
}

/// What one endpoint of a connection does: its own operations, and the
/// operations it runs on each stream that the peer opens, by stream id.
#[derive(Debug)]
pub struct Connection {
    pub ops: Vec<ConnectionOp>,
    pub peer_streams: Vec<Vec<ConnectionOp>>,
}

} // verus!
