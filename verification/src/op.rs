//! The operations that make up a scenario: what each connection, client and
//! router does, in order.

use core::time::Duration;
use crate::connection::trace::string_push;
use vstd::prelude::*;

verus! {

/// One step of a connection thread.
#[derive(Debug, PartialEq, Hash)]
pub enum ConnectionOp {
    /// Pause for the specified duration before processing the next op
    Sleep { amount: Duration },
    /// Open a bidirectional stream with an identifier
    BidirectionalStream { stream_id: u64 },
    /// Open a unidirectional stream with an identifier
    SendStream { stream_id: u64 },
    /// Send a specific amount of data over the stream id
    Send { stream_id: u64, bytes: u64 },
    /// Finish sending data on the stream
    SendFinish { stream_id: u64 },
    /// Sets the send rate for a stream
    SendRate { stream_id: u64, bytes: u64, period: Duration },
    /// Send a specific amount of data over the stream id
    Receive { stream_id: u64, bytes: u64 },
    /// Receives all of the data on the stream until it is finished
    ReceiveAll { stream_id: u64 },
    /// Finish receiving data on the stream
    ReceiveFinish { stream_id: u64 },
    /// Sets the receive rate for a stream
    ReceiveRate { stream_id: u64, bytes: u64, period: Duration },
    /// Parks the current thread and waits for the checkpoint to be unparked
    Park { checkpoint: u64 },
    /// Notifies the parked checkpoint that it can continue
    Unpark { checkpoint: u64 },
    /// Emit a trace event
    Trace { trace_id: u64 },
    /// Perform operations concurrently
    Scope { threads: Vec<Vec<ConnectionOp>> },
}

/// One step of a client.
#[derive(Debug, PartialEq, Hash)]
pub enum ClientOp {
    /// Pause for the specified duration before processing the next op
    Sleep { timeout: Duration },
    /// Open a connection with an identifier
    Connect {
        server_id: u64,
        router_id: Option<u64>,
        server_connection_id: u64,
        client_connection_id: u64,
    },
    /// Synchronizes two checkpoints across different threads
    Sync { checkpoint: u64 },
    /// Emit a trace event
    Trace { trace_id: u64 },
    /// Perform operations concurrently
    Scope { threads: Vec<Vec<ClientOp>> },
}

/// One step of a router between clients and servers.
#[derive(Clone, Copy, Debug, PartialEq, Hash)]
pub enum RouterOp {
    /// Pause for the specified duration before processing the next op
    Sleep { amount: Duration },
    /// Set the number of packets that can be buffered server->client
    ServerBufferCount { packet_count: u32 },
    /// Set the chance of a server->client packet being dropped
    ServerDropRate { packet_count: u32 },
    /// Set the chance of a server->client packet being reordered
    ServerReorderRate { packet_count: u32 },
    /// Set the chance of a server->client packet being corrupted
    ServerCorruptRate { packet_count: u32 },
    /// Set the amount of delay for server->client packets
    ServerDelay { amount: Duration },
    /// Set the amount of jitter for server->client packets
    ServerJitter { amount: Duration },
    /// Set the server->client MTU
    ServerMtu { mtu: u16 },
    /// Set the number of packets that can be buffered server->client
    ClientBufferCount { packet_count: u32 },
    /// Set the chance of a client->server packet being dropped
    ClientDropRate { packet_count: u32 },
    /// Set the chance of a client->server packet being reordered
    ClientReorderRate { packet_count: u32 },
    /// Set the chance of a client->server packet being corrupted
    ClientCorruptRate { packet_count: u32 },
    /// Set the amount of delay for client->server packets
    ClientDelay { amount: Duration },
    /// Set the amount of jitter for client->server packets
    ClientJitter { amount: Duration },
    /// Set the client->server MTU
    ClientMtu { mtu: u16 },
    /// Set the chance of a port being rebound
    ClientRebindPortRate { packet_count: u32 },
    /// Set the chance of an IP being rebound
    ClientRebindAddressRate { packet_count: u32 },
    /// Rebinds all of the ports and/or addresses currently being used
    RebindAll { ports: bool, addresses: bool },
    /// Emit a trace event
    Trace { trace_id: u64 },
}

} // verus!

verus! {

/// `b` is a copy of `a`: the same op, and for a scope the same threads,
/// op by op.
pub open spec fn copies(a: ConnectionOp, b: ConnectionOp) -> bool
    decreases a,
{
    match a {
        ConnectionOp::Scope { threads: x } => match b {
            ConnectionOp::Scope { threads: y } => {
                &&& x@.len() == y@.len()
                &&& forall|i: int| 0 <= i < x@.len() ==> (#[trigger] y@[i])@.len() == x@[i]@.len()
                &&& forall|i: int, j: int|
                    0 <= i < x@.len() && 0 <= j < x@[i]@.len() ==> copies(x@[i]@[j], #[trigger] y@[i]@[j])
            },
            _ => false,
        },
        _ => b == a,
    }
}

impl Clone for ConnectionOp {
    /// A copy of the op; a scope is copied thread by thread.
    fn clone(&self) -> (r: Self)
        ensures
            copies(*self, r),
        decreases self,
    {
        match self {
            ConnectionOp::Scope { threads } => {
                let mut out: Vec<Vec<ConnectionOp>> = Vec::new();
                let mut i: usize = 0;
                while i < threads.len()
                    invariant
                        i <= threads@.len(),
                        out@.len() == i,
                        *self == (ConnectionOp::Scope { threads: *threads }),
                        forall|k: int| 0 <= k < i ==> (#[trigger] out@[k])@.len() == threads@[k]@.len(),
                        forall|k: int, j: int|
                            0 <= k < i && 0 <= j < threads@[k]@.len() ==> copies(threads@[k]@[j], #[trigger] out@[k]@[j]),
                    decreases threads@.len() - i,
                {
                    let mut thread: Vec<ConnectionOp> = Vec::new();
                    let mut j: usize = 0;
                    while j < threads[i].len()
                        invariant
                            i < threads@.len(),
                            *self == (ConnectionOp::Scope { threads: *threads }),
                            j <= threads@[i as int]@.len(),
                            thread@.len() == j,
                            forall|m: int| 0 <= m < j ==> copies(threads@[i as int]@[m], #[trigger] thread@[m]),
                        decreases threads@[i as int]@.len() - j,
                    {
                        proof {
                            assert(decreases_to!(threads => threads@[i as int]));
                            assert(decreases_to!(threads@[i as int] => threads@[i as int]@[j as int]));
                            assert(decreases_to!(*self => self->threads));
                            assert(decreases_to!(*self => threads@[i as int]@[j as int]));
                        }
                        thread.push(threads[i][j].clone());
                        j = j + 1;
                    }
                    let ghost before = out@;
                    out.push(thread);
                    proof {
                        assert forall|k: int, j: int|
                            0 <= k < i + 1 && 0 <= j < threads@[k]@.len() implies copies(
                            threads@[k]@[j],
                            #[trigger] out@[k]@[j],
                        ) by {
                            if k < i {
                                assert(out@[k] == before[k]);
                            }
                        }
                    }
                    i = i + 1;
                }
                ConnectionOp::Scope { threads: out }
            },
            ConnectionOp::Sleep { amount } => ConnectionOp::Sleep { amount: *amount },
            ConnectionOp::BidirectionalStream { stream_id } => ConnectionOp::BidirectionalStream { stream_id: *stream_id },
            ConnectionOp::SendStream { stream_id } => ConnectionOp::SendStream { stream_id: *stream_id },
            ConnectionOp::Send { stream_id, bytes } => ConnectionOp::Send { stream_id: *stream_id, bytes: *bytes },
            ConnectionOp::SendFinish { stream_id } => ConnectionOp::SendFinish { stream_id: *stream_id },
            ConnectionOp::SendRate { stream_id, bytes, period } => ConnectionOp::SendRate {
                stream_id: *stream_id,
                bytes: *bytes,
                period: *period,
            },
            ConnectionOp::Receive { stream_id, bytes } => ConnectionOp::Receive { stream_id: *stream_id, bytes: *bytes },
            ConnectionOp::ReceiveAll { stream_id } => ConnectionOp::ReceiveAll { stream_id: *stream_id },
            ConnectionOp::ReceiveFinish { stream_id } => ConnectionOp::ReceiveFinish { stream_id: *stream_id },
            ConnectionOp::ReceiveRate { stream_id, bytes, period } => ConnectionOp::ReceiveRate {
                stream_id: *stream_id,
                bytes: *bytes,
                period: *period,
            },
            ConnectionOp::Park { checkpoint } => ConnectionOp::Park { checkpoint: *checkpoint },
            ConnectionOp::Unpark { checkpoint } => ConnectionOp::Unpark { checkpoint: *checkpoint },
            ConnectionOp::Trace { trace_id } => ConnectionOp::Trace { trace_id: *trace_id },
        }
    }
}

} // verus!

verus! {

/// The id of a scenario: the digest of its description, in lowercase hex.
#[derive(Debug)]
pub struct ScenarioId(String);

impl Default for ScenarioId {
    fn default() -> (id: Self)
        ensures
            id@ == Seq::<char>::empty(),
    {
        ScenarioId(String::new())
    }
}

impl View for ScenarioId {
    type V = Seq<char>;

    closed spec fn view(&self) -> Seq<char> {
        self.0@
    }
}

impl ScenarioId {
    /// The id whose text is `s`, as read from a scenario description.
    pub fn new(s: String) -> (id: ScenarioId)
        ensures
            id@ == s@,
    {
        ScenarioId(s)
    }

    /// A hasher for a new id.
    pub fn hasher() -> (h: ScenarioIdHasher)
        ensures
            h@ == Seq::<u8>::empty(),
    {
        ScenarioIdHasher { bytes: Vec::new() }
    }

    /// The id as text.
    pub fn as_str(&self) -> (s: &str)
        ensures
            s@ == self@,
    {
        self.0.as_str()
    }
}

/// What `sha2::Sha256` computes for `data`: its SHA-256 digest.
pub uninterp spec fn sha256(data: Seq<u8>) -> Seq<u8>;

/// `<sha2::Sha256 as Digest>::digest`: the SHA-256 digest of `data`, which
/// is 32 bytes long.
#[verifier::external_body]
fn sha256_digest(data: &[u8]) -> (d: Vec<u8>)
    ensures
        d@ == sha256(data@),
        d@.len() == 32,
{
    <sha2::Sha256 as sha2::Digest>::digest(data).to_vec()
}

/// The lowercase hex digit of `n`, below 16.
pub open spec fn hex_digit(n: u8) -> char {
    if n < 10 {
        (48 + n) as char
    } else {
        (87 + n) as char
    }
}

/// `bytes` in lowercase hex, two digits a byte.
pub open spec fn hex(bytes: Seq<u8>) -> Seq<char>
    decreases bytes.len(),
{
    if bytes.len() == 0 {
        Seq::empty()
    } else {
        hex(bytes.drop_last()) + seq![hex_digit(bytes.last() / 16), hex_digit(bytes.last() % 16)]
    }
}

fn hex_char(n: u8) -> (c: char)
    requires
        n < 16,
    ensures
        c == hex_digit(n),
{
    if n < 10 {
        (48 + n) as char
    } else {
        (87 + n) as char
    }
}

/// Collects the bytes that describe a scenario; its id is their digest.
#[derive(Debug)]
pub struct ScenarioIdHasher {
    bytes: Vec<u8>,
}

impl View for ScenarioIdHasher {
    type V = Seq<u8>;

    /// The bytes written so far.
    closed spec fn view(&self) -> Seq<u8> {
        self.bytes@
    }
}

impl ScenarioIdHasher {
    /// Adds `bytes` to the description.
    pub fn write(&mut self, bytes: &[u8])
        ensures
            final(self)@ == old(self)@ + bytes@,
    {
        let mut i: usize = 0;
        while i < bytes.len()
            invariant
                i <= bytes@.len(),
                self@ == old(self)@ + bytes@.take(i as int),
            decreases bytes@.len() - i,
        {
            self.bytes.push(bytes[i]);
            proof {
                assert(bytes@.take(i + 1) =~= bytes@.take(i as int).push(bytes@[i as int]));
            }
            i = i + 1;
        }
        proof {
            assert(bytes@.take(bytes@.len() as int) =~= bytes@);
        }
    }

    /// The id: the SHA-256 digest of the bytes written, in lowercase hex.
    pub fn finish(self) -> (id: ScenarioId)
        ensures
            id@ == hex(sha256(self@)),
    {
        let digest = sha256_digest(self.bytes.as_slice());
        let mut out = String::new();
        let mut i: usize = 0;
        while i < digest.len()
            invariant
                i <= digest@.len(),
                out@ == hex(digest@.take(i as int)),
            decreases digest@.len() - i,
        {
            let b = digest[i];
            string_push(&mut out, hex_char(b / 16));
            string_push(&mut out, hex_char(b % 16));
            proof {
                assert(digest@.take(i + 1).drop_last() =~= digest@.take(i as int));
                assert(out@ =~= hex(digest@.take(i + 1)));
            }
            i = i + 1;
        }
        proof {
            assert(digest@.take(digest@.len() as int) =~= digest@);
        }
        ScenarioId(out)
    }
}

} // verus!

verus! {

/// The hex text of `bytes` has two digits per byte, so an id made from a
/// 32-byte digest is 64 characters long.
pub proof fn lemma_hex_len(bytes: Seq<u8>)
    ensures
        hex(bytes).len() == 2 * bytes.len(),
    decreases bytes.len(),
{
    if bytes.len() > 0 {
        lemma_hex_len(bytes.drop_last());
    }
}

} // verus!

verus! {

/// `b` is a copy of the client op `a`.
pub open spec fn client_copies(a: ClientOp, b: ClientOp) -> bool
    decreases a,
{
    match a {
        ClientOp::Scope { threads: x } => match b {
            ClientOp::Scope { threads: y } => {
                &&& x@.len() == y@.len()
                &&& forall|i: int| 0 <= i < x@.len() ==> (#[trigger] y@[i])@.len() == x@[i]@.len()
                &&& forall|i: int, j: int|
                    0 <= i < x@.len() && 0 <= j < x@[i]@.len() ==> client_copies(x@[i]@[j], #[trigger] y@[i]@[j])
            },
            _ => false,
        },
        _ => b == a,
    }
}

impl Clone for ClientOp {
    /// A copy of the op; a scope is copied thread by thread.
    fn clone(&self) -> (r: Self)
        ensures
            client_copies(*self, r),
        decreases self,
    {
        match self {
            ClientOp::Scope { threads } => {
                let mut out: Vec<Vec<ClientOp>> = Vec::new();
                let mut i: usize = 0;
                while i < threads.len()
                    invariant
                        i <= threads@.len(),
                        out@.len() == i,
                        *self == (ClientOp::Scope { threads: *threads }),
                        forall|k: int| 0 <= k < i ==> (#[trigger] out@[k])@.len() == threads@[k]@.len(),
                        forall|k: int, j: int|
                            0 <= k < i && 0 <= j < threads@[k]@.len() ==> client_copies(
                                threads@[k]@[j],
                                #[trigger] out@[k]@[j],
                            ),
                    decreases threads@.len() - i,
                {
                    let mut thread: Vec<ClientOp> = Vec::new();
                    let mut j: usize = 0;
                    while j < threads[i].len()
                        invariant
                            i < threads@.len(),
                            *self == (ClientOp::Scope { threads: *threads }),
                            j <= threads@[i as int]@.len(),
                            thread@.len() == j,
                            forall|m: int| 0 <= m < j ==> client_copies(threads@[i as int]@[m], #[trigger] thread@[m]),
                        decreases threads@[i as int]@.len() - j,
                    {
                        proof {
                            assert(decreases_to!(threads => threads@[i as int]));
                            assert(decreases_to!(threads@[i as int] => threads@[i as int]@[j as int]));
                            assert(decreases_to!(*self => self->threads));
                            assert(decreases_to!(*self => threads@[i as int]@[j as int]));
                        }
                        thread.push(threads[i][j].clone());
                        j = j + 1;
                    }
                    let ghost before = out@;
                    out.push(thread);
                    proof {
                        assert forall|k: int, j: int|
                            0 <= k < i + 1 && 0 <= j < threads@[k]@.len() implies client_copies(
                            threads@[k]@[j],
                            #[trigger] out@[k]@[j],
                        ) by {
                            if k < i {
                                assert(out@[k] == before[k]);
                            }
                        }
                    }
                    i = i + 1;
                }
                ClientOp::Scope { threads: out }
            },
            ClientOp::Sleep { timeout } => ClientOp::Sleep { timeout: *timeout },
            ClientOp::Connect { server_id, router_id, server_connection_id, client_connection_id } => ClientOp::Connect {
                server_id: *server_id,
                router_id: *router_id,
                server_connection_id: *server_connection_id,
                client_connection_id: *client_connection_id,
            },
            ClientOp::Sync { checkpoint } => ClientOp::Sync { checkpoint: *checkpoint },
            ClientOp::Trace { trace_id } => ClientOp::Trace { trace_id: *trace_id },
        }
    }
}

} // verus!
