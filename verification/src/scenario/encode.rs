//! The byte description of a scenario that its id is a digest of.
//!
//! Numbers are eight big-endian bytes, durations their nanoseconds in
//! sixteen, every list its length and then its items, every text its
//! UTF-8 length and bytes, and every operation a tag byte (the position of
//! its kind in the declaration) and then its fields in order.

use crate::endian::{be_bytes, be_encode, lemma_be_bytes_len};
use crate::op::{ClientOp, ConnectionOp};
use crate::scenario::{Client, Connection, Server};
use crate::time::{duration_as_nanos, duration_nanos};
use core::time::Duration;
use vstd::prelude::*;

verus! {

/// Eight big-endian bytes of `v`.
pub open spec fn u64_enc(v: u64) -> Seq<u8> {
    be_bytes(v as nat, 8)
}

/// The nanoseconds of `d`, in sixteen big-endian bytes.
pub open spec fn duration_enc(d: Duration) -> Seq<u8> {
    let n = duration_as_nanos(d) as nat;
    u64_enc((n / 0x1_0000_0000_0000_0000) as u64) + u64_enc((n % 0x1_0000_0000_0000_0000) as u64)
}

/// The encoding of one connection op.
pub open spec fn op_enc(op: ConnectionOp) -> Seq<u8>
    decreases op,
{
    match op {
        ConnectionOp::Sleep { amount } => seq![0u8] + duration_enc(amount),
        ConnectionOp::BidirectionalStream { stream_id } => seq![1u8] + u64_enc(stream_id),
        ConnectionOp::SendStream { stream_id } => seq![2u8] + u64_enc(stream_id),
        ConnectionOp::Send { stream_id, bytes } => seq![3u8] + u64_enc(stream_id) + u64_enc(bytes),
        ConnectionOp::SendFinish { stream_id } => seq![4u8] + u64_enc(stream_id),
        ConnectionOp::SendRate { stream_id, bytes, period } => seq![5u8] + u64_enc(stream_id) + u64_enc(bytes)
            + duration_enc(period),
        ConnectionOp::Receive { stream_id, bytes } => seq![6u8] + u64_enc(stream_id) + u64_enc(bytes),
        ConnectionOp::ReceiveAll { stream_id } => seq![7u8] + u64_enc(stream_id),
        ConnectionOp::ReceiveFinish { stream_id } => seq![8u8] + u64_enc(stream_id),
        ConnectionOp::ReceiveRate { stream_id, bytes, period } => seq![9u8] + u64_enc(stream_id) + u64_enc(bytes)
            + duration_enc(period),
        ConnectionOp::Park { checkpoint } => seq![10u8] + u64_enc(checkpoint),
        ConnectionOp::Unpark { checkpoint } => seq![11u8] + u64_enc(checkpoint),
        ConnectionOp::Trace { trace_id } => seq![12u8] + u64_enc(trace_id),
        ConnectionOp::Scope { threads } => seq![13u8] + u64_enc(threads@.len() as u64) + threads_body(threads@),
    }
}

/// The encodings of `ops`, one after the other.
pub open spec fn ops_body(ops: Seq<ConnectionOp>) -> Seq<u8>
    decreases ops,
{
    if ops.len() == 0 {
        Seq::empty()
    } else {
        ops_body(ops.drop_last()) + op_enc(ops.last())
    }
}

/// The encodings of the op lists `threads`, one after the other.
pub open spec fn threads_body(threads: Seq<Vec<ConnectionOp>>) -> Seq<u8>
    decreases threads,
{
    if threads.len() == 0 {
        Seq::empty()
    } else {
        threads_body(threads.drop_last()) + u64_enc(threads.last()@.len() as u64) + ops_body(threads.last()@)
    }
}

} // verus!

verus! {

/// The encoding of one client op.
pub open spec fn client_op_enc(op: ClientOp) -> Seq<u8>
    decreases op,
{
    match op {
        ClientOp::Sleep { timeout } => seq![0u8] + duration_enc(timeout),
        ClientOp::Connect { server_id, router_id, server_connection_id, client_connection_id } => seq![1u8]
            + u64_enc(server_id) + match router_id {
            None => seq![0u8],
            Some(r) => seq![1u8] + u64_enc(r),
        } + u64_enc(server_connection_id) + u64_enc(client_connection_id),
        ClientOp::Sync { checkpoint } => seq![2u8] + u64_enc(checkpoint),
        ClientOp::Trace { trace_id } => seq![3u8] + u64_enc(trace_id),
        ClientOp::Scope { threads } => seq![4u8] + u64_enc(threads@.len() as u64) + client_threads_body(threads@),
    }
}

/// The encodings of `ops`, one after the other.
pub open spec fn client_ops_body(ops: Seq<ClientOp>) -> Seq<u8>
    decreases ops,
{
    if ops.len() == 0 {
        Seq::empty()
    } else {
        client_ops_body(ops.drop_last()) + client_op_enc(ops.last())
    }
}

/// The encodings of the client op lists `threads`, one after the other.
pub open spec fn client_threads_body(threads: Seq<Vec<ClientOp>>) -> Seq<u8>
    decreases threads,
{
    if threads.len() == 0 {
        Seq::empty()
    } else {
        client_threads_body(threads.drop_last()) + u64_enc(threads.last()@.len() as u64) + client_ops_body(
            threads.last()@,
        )
    }
}

/// A list: its length, then the encodings of its items by `f`.
pub open spec fn list_enc<T>(s: Seq<T>, f: spec_fn(T) -> Seq<u8>) -> Seq<u8> {
    u64_enc(s.len() as u64) + list_body(s, f)
}

/// The encodings of the items of `s` by `f`, one after the other.
pub open spec fn list_body<T>(s: Seq<T>, f: spec_fn(T) -> Seq<u8>) -> Seq<u8>
    decreases s.len(),
{
    if s.len() == 0 {
        Seq::empty()
    } else {
        list_body(s.drop_last(), f) + f(s.last())
    }
}

pub proof fn lemma_list_body_push<T>(s: Seq<T>, x: T, f: spec_fn(T) -> Seq<u8>)
    ensures
        list_body(s.push(x), f) == list_body(s, f) + f(x),
{
    assert(s.push(x).drop_last() =~= s);
}

pub(crate) fn put_u64(out: &mut Vec<u8>, v: u64)
    ensures
        final(out)@ == old(out)@ + u64_enc(v),
{
    be_encode(v, 8, out);
}

fn put_duration(out: &mut Vec<u8>, d: Duration)
    ensures
        final(out)@ == old(out)@ + duration_enc(d),
{
    let n = duration_nanos(d);
    let hi = (n / 0x1_0000_0000_0000_0000u128) as u64;
    let lo = (n % 0x1_0000_0000_0000_0000u128) as u64;
    put_u64(out, hi);
    put_u64(out, lo);
    assert(final(out)@ =~= old(out)@ + duration_enc(d));
}

/// Appends the encoding of `op`.
pub fn put_op(out: &mut Vec<u8>, op: &ConnectionOp)
    ensures
        final(out)@ == old(out)@ + op_enc(*op),
    decreases op,
{
    let ghost start = out@;
    match op {
        ConnectionOp::Sleep { amount } => {
            out.push(0u8);
            put_duration(out, *amount);
        },
        ConnectionOp::BidirectionalStream { stream_id } => {
            out.push(1u8);
            put_u64(out, *stream_id);
        },
        ConnectionOp::SendStream { stream_id } => {
            out.push(2u8);
            put_u64(out, *stream_id);
        },
        ConnectionOp::Send { stream_id, bytes } => {
            out.push(3u8);
            put_u64(out, *stream_id);
            put_u64(out, *bytes);
        },
        ConnectionOp::SendFinish { stream_id } => {
            out.push(4u8);
            put_u64(out, *stream_id);
        },
        ConnectionOp::SendRate { stream_id, bytes, period } => {
            out.push(5u8);
            put_u64(out, *stream_id);
            put_u64(out, *bytes);
            put_duration(out, *period);
        },
        ConnectionOp::Receive { stream_id, bytes } => {
            out.push(6u8);
            put_u64(out, *stream_id);
            put_u64(out, *bytes);
        },
        ConnectionOp::ReceiveAll { stream_id } => {
            out.push(7u8);
            put_u64(out, *stream_id);
        },
        ConnectionOp::ReceiveFinish { stream_id } => {
            out.push(8u8);
            put_u64(out, *stream_id);
        },
        ConnectionOp::ReceiveRate { stream_id, bytes, period } => {
            out.push(9u8);
            put_u64(out, *stream_id);
            put_u64(out, *bytes);
            put_duration(out, *period);
        },
        ConnectionOp::Park { checkpoint } => {
            out.push(10u8);
            put_u64(out, *checkpoint);
        },
        ConnectionOp::Unpark { checkpoint } => {
            out.push(11u8);
            put_u64(out, *checkpoint);
        },
        ConnectionOp::Trace { trace_id } => {
            out.push(12u8);
            put_u64(out, *trace_id);
        },
        ConnectionOp::Scope { threads } => {
            out.push(13u8);
            put_u64(out, threads.len() as u64);
            let ghost head = out@;
            let mut i: usize = 0;
            while i < threads.len()
                invariant
                    i <= threads@.len(),
                    *op == (ConnectionOp::Scope { threads: *threads }),
                    out@ == head + threads_body(threads@.take(i as int)),
                decreases threads@.len() - i,
            {
                let thread = &threads[i];
                put_u64(out, thread.len() as u64);
                let ghost mid = out@;
                let mut j: usize = 0;
                while j < thread.len()
                    invariant
                        i < threads@.len(),
                        *thread == threads@[i as int],
                        *op == (ConnectionOp::Scope { threads: *threads }),
                        j <= thread@.len(),
                        out@ == mid + ops_body(thread@.take(j as int)),
                    decreases thread@.len() - j,
                {
                    proof {
                        assert(decreases_to!(*op => op->threads));
                        assert(decreases_to!(op->threads => threads@[i as int]));
                        assert(decreases_to!(threads@[i as int] => threads@[i as int]@[j as int]));
                        assert(thread@.take(j + 1).drop_last() =~= thread@.take(j as int));
                    }
                    put_op(out, &thread[j]);
                    j = j + 1;
                }
                proof {
                    assert(thread@.take(thread@.len() as int) =~= thread@);
                    assert(threads@.take(i + 1).drop_last() =~= threads@.take(i as int));
                    assert(out@ =~= head + threads_body(threads@.take(i + 1)));
                }
                i = i + 1;
            }
            proof {
                assert(threads@.take(threads@.len() as int) =~= threads@);
            }
        },
    }
    assert(out@ =~= start + op_enc(*op));
}

} // verus!

verus! {

/// Appends the encoding of `op`.
pub fn put_client_op(out: &mut Vec<u8>, op: &ClientOp)
    ensures
        final(out)@ == old(out)@ + client_op_enc(*op),
    decreases op,
{
    let ghost start = out@;
    match op {
        ClientOp::Sleep { timeout } => {
            out.push(0u8);
            put_duration(out, *timeout);
        },
        ClientOp::Connect { server_id, router_id, server_connection_id, client_connection_id } => {
            out.push(1u8);
            put_u64(out, *server_id);
            match router_id {
                None => out.push(0u8),
                Some(r) => {
                    out.push(1u8);
                    put_u64(out, *r);
                },
            }
            put_u64(out, *server_connection_id);
            put_u64(out, *client_connection_id);
        },
        ClientOp::Sync { checkpoint } => {
            out.push(2u8);
            put_u64(out, *checkpoint);
        },
        ClientOp::Trace { trace_id } => {
            out.push(3u8);
            put_u64(out, *trace_id);
        },
        ClientOp::Scope { threads } => {
            out.push(4u8);
            put_u64(out, threads.len() as u64);
            let ghost head = out@;
            let mut i: usize = 0;
            while i < threads.len()
                invariant
                    i <= threads@.len(),
                    *op == (ClientOp::Scope { threads: *threads }),
                    out@ == head + client_threads_body(threads@.take(i as int)),
                decreases threads@.len() - i,
            {
                let thread = &threads[i];
                put_u64(out, thread.len() as u64);
                let ghost mid = out@;
                let mut j: usize = 0;
                while j < thread.len()
                    invariant
                        i < threads@.len(),
                        *thread == threads@[i as int],
                        *op == (ClientOp::Scope { threads: *threads }),
                        j <= thread@.len(),
                        out@ == mid + client_ops_body(thread@.take(j as int)),
                    decreases thread@.len() - j,
                {
                    proof {
                        assert(decreases_to!(*op => op->threads));
                        assert(decreases_to!(op->threads => threads@[i as int]));
                        assert(decreases_to!(threads@[i as int] => threads@[i as int]@[j as int]));
                        assert(thread@.take(j + 1).drop_last() =~= thread@.take(j as int));
                    }
                    put_client_op(out, &thread[j]);
                    j = j + 1;
                }
                proof {
                    assert(thread@.take(thread@.len() as int) =~= thread@);
                    assert(threads@.take(i + 1).drop_last() =~= threads@.take(i as int));
                    assert(out@ =~= head + client_threads_body(threads@.take(i + 1)));
                }
                i = i + 1;
            }
            proof {
                assert(threads@.take(threads@.len() as int) =~= threads@);
            }
        },
    }
    assert(out@ =~= start + client_op_enc(*op));
}

/// Appends the length of `ops` and their encodings.
pub fn put_ops(out: &mut Vec<u8>, ops: &Vec<ConnectionOp>)
    ensures
        final(out)@ == old(out)@ + u64_enc(ops@.len() as u64) + ops_body(ops@),
{
    put_u64(out, ops.len() as u64);
    let ghost head = out@;
    let mut j: usize = 0;
    while j < ops.len()
        invariant
            j <= ops@.len(),
            out@ == head + ops_body(ops@.take(j as int)),
        decreases ops@.len() - j,
    {
        proof {
            assert(ops@.take(j + 1).drop_last() =~= ops@.take(j as int));
        }
        put_op(out, &ops[j]);
        j = j + 1;
    }
    proof {
        assert(ops@.take(ops@.len() as int) =~= ops@);
    }
}

/// Appends the length of `threads` and, for each, its length and its ops.
pub fn put_threads(out: &mut Vec<u8>, threads: &Vec<Vec<ConnectionOp>>)
    ensures
        final(out)@ == old(out)@ + u64_enc(threads@.len() as u64) + threads_body(threads@),
{
    put_u64(out, threads.len() as u64);
    let ghost head = out@;
    let mut i: usize = 0;
    while i < threads.len()
        invariant
            i <= threads@.len(),
            out@ == head + threads_body(threads@.take(i as int)),
        decreases threads@.len() - i,
    {
        put_ops(out, &threads[i]);
        proof {
            assert(threads@.take(i + 1).drop_last() =~= threads@.take(i as int));
            assert(out@ =~= head + threads_body(threads@.take(i + 1)));
        }
        i = i + 1;
    }
    proof {
        assert(threads@.take(threads@.len() as int) =~= threads@);
    }
}

/// Appends the length of `ops` and their encodings.
pub fn put_client_ops(out: &mut Vec<u8>, ops: &Vec<ClientOp>)
    ensures
        final(out)@ == old(out)@ + u64_enc(ops@.len() as u64) + client_ops_body(ops@),
{
    put_u64(out, ops.len() as u64);
    let ghost head = out@;
    let mut j: usize = 0;
    while j < ops.len()
        invariant
            j <= ops@.len(),
            out@ == head + client_ops_body(ops@.take(j as int)),
        decreases ops@.len() - j,
    {
        proof {
            assert(ops@.take(j + 1).drop_last() =~= ops@.take(j as int));
        }
        put_client_op(out, &ops[j]);
        j = j + 1;
    }
    proof {
        assert(ops@.take(ops@.len() as int) =~= ops@);
    }
}

/// The UTF-8 length of `s`, then its UTF-8 bytes.
pub open spec fn str_enc(s: Seq<char>) -> Seq<u8> {
    u64_enc(vstd::utf8::encode_utf8(s).len() as u64) + vstd::utf8::encode_utf8(s)
}

/// Appends the encoding of `s`.
pub fn put_str(out: &mut Vec<u8>, s: &str)
    ensures
        final(out)@ == old(out)@ + str_enc(s@),
{
    let b = s.as_bytes();
    put_u64(out, b.len() as u64);
    let ghost head = out@;
    let mut i: usize = 0;
    while i < b.len()
        invariant
            i <= b@.len(),
            b@ == vstd::utf8::encode_utf8(s@),
            out@ == head + b@.take(i as int),
        decreases b@.len() - i,
    {
        out.push(b[i]);
        proof {
            assert(b@.take(i + 1) =~= b@.take(i as int).push(b@[i as int]));
        }
        i = i + 1;
    }
    proof {
        assert(b@.take(b@.len() as int) =~= b@);
    }
}

} // verus!

verus! {

/// The encoding of a connection: its ops, then its peer streams.
pub open spec fn conn_enc(c: Connection) -> Seq<u8> {
    u64_enc(c.ops@.len() as u64) + ops_body(c.ops@) + u64_enc(c.peer_streams@.len() as u64) + threads_body(
        c.peer_streams@,
    )
}

/// The encoding of a client: its name, its ops, then its connections.
pub open spec fn client_enc(c: Client) -> Seq<u8> {
    str_enc(c.name@) + u64_enc(c.scenario@.len() as u64) + client_ops_body(c.scenario@) + list_enc(
        c.connections@,
        |x: Connection| conn_enc(x),
    )
}

/// The encoding of a server: its connections.
pub open spec fn server_enc(s: Server) -> Seq<u8> {
    list_enc(s.connections@, |x: Connection| conn_enc(x))
}

/// The encoding of a scenario with `clients`, `servers` and trace names
/// `traces`.
pub open spec fn scenario_enc(clients: Seq<Client>, servers: Seq<Server>, traces: Seq<String>) -> Seq<u8> {
    list_enc(clients, |c: Client| client_enc(c)) + list_enc(servers, |s: Server| server_enc(s)) + list_enc(
        traces,
        |t: String| str_enc(t@),
    )
}

fn put_connection(out: &mut Vec<u8>, c: &Connection)
    ensures
        final(out)@ == old(out)@ + conn_enc(*c),
{
    put_ops(out, &c.ops);
    put_threads(out, &c.peer_streams);
    assert(final(out)@ =~= old(out)@ + conn_enc(*c));
}

fn put_connections(out: &mut Vec<u8>, cs: &Vec<Connection>)
    ensures
        final(out)@ == old(out)@ + list_enc(cs@, |x: Connection| conn_enc(x)),
{
    let ghost f = |x: Connection| conn_enc(x);
    put_u64(out, cs.len() as u64);
    let ghost head = out@;
    let mut i: usize = 0;
    while i < cs.len()
        invariant
            i <= cs@.len(),
            f == (|x: Connection| conn_enc(x)),
            out@ == head + list_body(cs@.take(i as int), f),
        decreases cs@.len() - i,
    {
        put_connection(out, &cs[i]);
        proof {
            assert(cs@.take(i + 1) =~= cs@.take(i as int).push(cs@[i as int]));
            lemma_list_body_push(cs@.take(i as int), cs@[i as int], f);
            assert(out@ =~= head + list_body(cs@.take(i + 1), f));
        }
        i = i + 1;
    }
    proof {
        assert(cs@.take(cs@.len() as int) =~= cs@);
    }
}

fn put_client(out: &mut Vec<u8>, c: &Client)
    ensures
        final(out)@ == old(out)@ + client_enc(*c),
{
    put_str(out, c.name.as_str());
    put_client_ops(out, &c.scenario);
    put_connections(out, &c.connections);
    assert(final(out)@ =~= old(out)@ + client_enc(*c));
}

fn put_server(out: &mut Vec<u8>, s: &Server)
    ensures
        final(out)@ == old(out)@ + server_enc(*s),
{
    put_connections(out, &s.connections);
}

/// The encoding of a scenario with `clients`, `servers` and trace names
/// `traces`.
pub fn scenario_bytes(clients: &Vec<Client>, servers: &Vec<Server>, traces: &Vec<String>) -> (out: Vec<u8>)
    ensures
        out@ == scenario_enc(clients@, servers@, traces@),
{
    let mut out: Vec<u8> = Vec::new();
    let ghost fc = |c: Client| client_enc(c);
    put_u64(&mut out, clients.len() as u64);
    let mut i: usize = 0;
    while i < clients.len()
        invariant
            i <= clients@.len(),
            fc == (|c: Client| client_enc(c)),
            out@ == u64_enc(clients@.len() as u64) + list_body(clients@.take(i as int), fc),
        decreases clients@.len() - i,
    {
        put_client(&mut out, &clients[i]);
        proof {
            assert(clients@.take(i + 1) =~= clients@.take(i as int).push(clients@[i as int]));
            lemma_list_body_push(clients@.take(i as int), clients@[i as int], fc);
        }
        i = i + 1;
    }
    proof {
        assert(clients@.take(clients@.len() as int) =~= clients@);
    }
    let ghost a = out@;
    let ghost fs = |s: Server| server_enc(s);
    put_u64(&mut out, servers.len() as u64);
    let mut i: usize = 0;
    while i < servers.len()
        invariant
            i <= servers@.len(),
            fs == (|s: Server| server_enc(s)),
            out@ == a + u64_enc(servers@.len() as u64) + list_body(servers@.take(i as int), fs),
        decreases servers@.len() - i,
    {
        put_server(&mut out, &servers[i]);
        proof {
            assert(servers@.take(i + 1) =~= servers@.take(i as int).push(servers@[i as int]));
            lemma_list_body_push(servers@.take(i as int), servers@[i as int], fs);
        }
        i = i + 1;
    }
    proof {
        assert(servers@.take(servers@.len() as int) =~= servers@);
    }
    let ghost b = out@;
    let ghost ft = |t: String| str_enc(t@);
    put_u64(&mut out, traces.len() as u64);
    let mut i: usize = 0;
    while i < traces.len()
        invariant
            i <= traces@.len(),
            ft == (|t: String| str_enc(t@)),
            out@ == b + u64_enc(traces@.len() as u64) + list_body(traces@.take(i as int), ft),
        decreases traces@.len() - i,
    {
        put_str(&mut out, traces[i].as_str());
        proof {
            assert(traces@.take(i + 1) =~= traces@.take(i as int).push(traces@[i as int]));
            lemma_list_body_push(traces@.take(i as int), traces@[i as int], ft);
        }
        i = i + 1;
    }
    proof {
        assert(traces@.take(traces@.len() as int) =~= traces@);
        assert(out@ =~= scenario_enc(clients@, servers@, traces@));
    }
    out
}

} // verus!
