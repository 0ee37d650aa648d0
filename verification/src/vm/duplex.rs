//! A benchmark server driven over one duplex byte transport: the peer sends
//! operations in control frames, and the server answers with the data of
//! the streams those operations open.

use crate::byte_buf::{bytes_from_vec, bytes_view};
use crate::connection::multiplexed::{payload, payload_byte};
use crate::endian::{be_bytes, be_encode, lemma_be_bytes_len};
use crate::vm::server::{op_a, op_b, op_decoded, op_tag, Op};
use crate::vm::ByteVec;
use crate::{Error, Result};
use std::collections::{HashMap, VecDeque};
use vstd::prelude::*;

pub mod frame;

verus! {

/// The capacity of the buffers that reads land in.
pub const CAPACITY: usize = 4016;
/// A read buffer with less room than this is replaced by a fresh one.
pub const BUFFER_MIN: usize = 128;
/// Stream data is queued for writing until this many bytes wait.
pub const MIN_SEND_BUFFER: usize = 131070;
/// The most payload bytes one stream frame carries.
pub const MAX_CHUNK: usize = 65535;

/// The big-endian bytes of `v`.
pub open spec fn u64_bytes(v: u64) -> Seq<u8> {
    be_bytes(v as nat, 8)
}

/// The test payload of `len` bytes starting at `offset`.
pub open spec fn payload_seq(offset: int, len: nat) -> Seq<u8> {
    Seq::new(len, |i: int| payload_byte(offset + i))
}

fn u64_chunk(v: u64) -> (b: bytes::Bytes)
    ensures
        bytes_view(b) == u64_bytes(v),
        bytes_view(b).len() == 8,
{
    proof {
        lemma_be_bytes_len(v as nat, 8);
    }
    let mut out: Vec<u8> = Vec::new();
    be_encode(v, 8, &mut out);
    assert(out@ =~= u64_bytes(v));
    bytes_from_vec(out)
}

/// A stream opened by an operation, as the server sees it.
#[derive(Debug)]
pub enum Stream {
    /// Data is still to be sent: `pending` bytes of payload, continuing at
    /// offset `sent`, and the stream is finished once they are written if
    /// `finished`.
    Sending { id: u64, sent: u64, pending: usize, finished: bool },
    /// The stream is to be reset with `err`.
    Reset { id: u64, err: u64 },
    /// Nothing more is written on the stream.
    Finished,
}

/// The stream still has something to write.
pub open spec fn active(s: Stream) -> bool {
    match s {
        Stream::Sending { pending, finished, .. } => pending != 0 || finished,
        Stream::Reset { .. } => true,
        Stream::Finished => false,
    }
}

/// The payload offset never passes the end of the test data.
pub open spec fn stream_wf(s: Stream) -> bool {
    s matches Stream::Sending { sent, pending, .. } ==> sent + pending <= u64::MAX
}

/// The number of payload bytes the next write of a sending stream carries.
pub open spec fn chunk_len(pending: usize) -> nat {
    if pending < MAX_CHUNK { pending as nat } else { MAX_CHUNK as nat }
}

/// The bytes that one write of `s` appends.
pub open spec fn write_bytes(s: Stream) -> Seq<u8> {
    match s {
        Stream::Sending { id, sent, pending, finished } => {
            let data = if pending > 0 {
                seq![1u8] + u64_bytes(id) + payload_seq(sent as int, chunk_len(pending))
            } else {
                Seq::<u8>::empty()
            };
            let fin = if finished { seq![2u8] + u64_bytes(id) } else { Seq::<u8>::empty() };
            data + fin
        },
        Stream::Reset { id, err } => u64_bytes(id) + u64_bytes(err),
        Stream::Finished => Seq::<u8>::empty(),
    }
}

/// The stream after one write.
pub open spec fn after_write(s: Stream) -> Stream {
    match s {
        Stream::Sending { id, sent, pending, finished } => if finished {
            Stream::Finished
        } else if pending > 0 {
            Stream::Sending {
                id,
                sent: (sent + chunk_len(pending)) as u64,
                pending: (pending - chunk_len(pending)) as usize,
                finished,
            }
        } else {
            s
        },
        _ => Stream::Finished,
    }
}

/// Whether the stream still has payload to send after one write.
pub open spec fn has_work_after(s: Stream) -> bool {
    match s {
        Stream::Sending { pending, finished, .. } => !finished && pending > chunk_len(pending),
        _ => false,
    }
}

/// A `send` of `len` more bytes keeps the counters in range.
pub open spec fn send_fits(s: Stream, len: usize) -> bool {
    s matches Stream::Sending { sent, pending, .. } ==> pending + len <= usize::MAX && sent + pending + len <= u64::MAX
}

/// The stream after `send(len)`.
pub open spec fn after_send(s: Stream, len: usize) -> Stream {
    match s {
        Stream::Sending { id, sent, pending, finished } => Stream::Sending { id, sent, pending: (pending + len) as usize, finished },
        _ => s,
    }
}

/// The stream after `reset(err)`.
pub open spec fn after_reset(s: Stream, err: u64) -> Stream {
    match s {
        Stream::Sending { id, .. } => Stream::Reset { id, err },
        _ => s,
    }
}

/// The stream after `finish()`.
pub open spec fn after_finish(s: Stream) -> Stream {
    match s {
        Stream::Sending { id, sent, pending, .. } => Stream::Sending { id, sent, pending, finished: true },
        _ => s,
    }
}

impl Stream {
    /// A stream with nothing yet to send.
    pub fn new(id: u64) -> (s: Self)
        ensures
            s == (Stream::Sending { id, sent: 0, pending: 0, finished: false }),
    {
        Stream::Sending { id, sent: 0, pending: 0, finished: false }
    }

    /// Queues `len` more payload bytes; a stream that is no longer sending
    /// is left as it is.
    pub fn send(&mut self, len: usize)
        requires
            send_fits(*old(self), len),
        ensures
            *final(self) == after_send(*old(self), len),
    {
        if let Stream::Sending { pending, .. } = self {
            *pending = *pending + len;
        }
    }

    /// Turns a sending stream into one to be reset with `err`.
    pub fn reset(&mut self, err: u64)
        ensures
            *final(self) == after_reset(*old(self), err),
    {
        if let Stream::Sending { id, .. } = self {
            let id = *id;
            *self = Stream::Reset { id, err };
        }
    }

    /// Marks a sending stream to be finished once its payload is written.
    pub fn finish(&mut self)
        ensures
            *final(self) == after_finish(*old(self)),
    {
        if let Stream::Sending { finished, .. } = self {
            *finished = true;
        }
    }

    /// Whether the stream has something to write.
    pub fn is_active(&self) -> (b: bool)
        ensures
            b == active(*self),
    {
        match self {
            Stream::Sending { pending, finished, .. } => *pending != 0 || *finished,
            Stream::Reset { .. } => true,
            Stream::Finished => false,
        }
    }

    /// Appends the stream's next frames to `b`: up to `MAX_CHUNK` payload
    /// bytes behind a stream tag and the id, then a finish tag and the id
    /// if the stream is finished; a reset writes the id and the error code.
    /// Returns whether payload remains to be sent.
    pub fn write(&mut self, b: &mut ByteVec) -> (has_work: bool)
        requires
            old(b).wf(),
            stream_wf(*old(self)),
            !(*old(self) is Finished),
            old(b)@.len() + MAX_CHUNK + 32 <= usize::MAX,
        ensures
            final(b).wf(),
            final(b)@ == old(b)@ + write_bytes(*old(self)),
            *final(self) == after_write(*old(self)),
            stream_wf(*final(self)),
            has_work == has_work_after(*old(self)),
    {
        let ghost b0 = b@;
        match self {
            Stream::Sending { id, sent, pending, finished } => {
                let mut has_work = false;
                let ghost data_part: Seq<u8> = Seq::empty();
                if *pending > 0 {
                    let len: usize = if *pending < MAX_CHUNK { *pending } else { MAX_CHUNK };
                    let data = payload(*sent, len);
                    assert(bytes_view(data) =~= payload_seq(*sent as int, chunk_len(*pending)));
                    b.push(frame::stream_tag());
                    b.push(u64_chunk(*id));
                    b.push(data);
                    *pending = *pending - len;
                    *sent = *sent + len as u64;
                    has_work = *pending > 0;
                    proof {
                        data_part = seq![1u8] + u64_bytes(*id) + bytes_view(data);
                        assert(b@ =~= b0 + data_part);
                    }
                }
                if *finished {
                    let ghost mid = b@;
                    b.push(frame::finish_tag());
                    b.push(u64_chunk(*id));
                    *self = Stream::Finished;
                    has_work = false;
                    proof {
                        assert(b@ =~= mid + (seq![2u8] + u64_bytes(old(self)->Sending_id)));
                    }
                }
                proof {
                    assert(b@ =~= b0 + write_bytes(*old(self)));
                }
                has_work
            },
            Stream::Reset { id, err } => {
                b.push(u64_chunk(*id));
                b.push(u64_chunk(*err));
                *self = Stream::Finished;
                proof {
                    assert(b@ =~= b0 + write_bytes(*old(self)));
                }
                false
            },
            Stream::Finished => false,
        }
    }
}

} // verus!

verus! {

/// What the operations of a duplex server amount to: the stream being
/// awaited, the streams by id, the operations not yet carried out, and the
/// streams scheduled for writing, in order.
#[verifier::ext_equal]
pub struct OpsView {
    pub awaiting: Option<u64>,
    pub streams: Map<u64, Stream>,
    pub queue: Seq<Op>,
    pub scheduled: Seq<u64>,
}

/// Operations are held back unless an awaited stream is still active.
pub open spec fn paused(v: OpsView) -> bool {
    match v.awaiting {
        Some(id) => !active(v.streams[id]),
        None => true,
    }
}

/// The operations a duplex server can carry out: waits and trace events
/// are not implemented.
pub open spec fn supported(op: Op) -> bool {
    !(op is Wait) && !(op is Trace)
}

/// `op` can be carried out on `v` without a counter leaving its range.
pub open spec fn applicable(v: OpsView, op: Op) -> bool {
    &&& supported(op)
    &&& match op {
        Op::Send { id, len } => v.streams.contains_key(id) ==> send_fits(v.streams[id], len),
        _ => true,
    }
}

/// `v` with stream `id` replaced by `s`, and scheduled for writing if it
/// was not active.
pub open spec fn touched(v: OpsView, id: u64, s: Stream) -> OpsView {
    OpsView {
        awaiting: v.awaiting,
        streams: v.streams.insert(id, s),
        queue: v.queue,
        scheduled: if active(v.streams[id]) { v.scheduled } else { v.scheduled.push(id) },
    }
}

proof fn lemma_write_bytes_len(s: Stream)
    ensures
        write_bytes(s).len() <= MAX_CHUNK + 18,
{
    match s {
        Stream::Sending { id, .. } => {
            lemma_be_bytes_len(id as nat, 8);
        },
        Stream::Reset { id, err } => {
            lemma_be_bytes_len(id as nat, 8);
            lemma_be_bytes_len(err as nat, 8);
        },
        Stream::Finished => {},
    }
}

/// What carrying out `op` does to `v`.
pub open spec fn apply_op(v: OpsView, op: Op) -> (OpsView, Result<()>) {
    match op {
        Op::BidirectionalStream { id } => (
            OpsView { streams: v.streams.insert(id, Stream::Sending { id, sent: 0, pending: 0, finished: false }), ..v },
            Ok(()),
        ),
        Op::UnidirectionalStream { id } => (
            OpsView { streams: v.streams.insert(id, Stream::Sending { id, sent: 0, pending: 0, finished: false }), ..v },
            Ok(()),
        ),
        Op::Send { id, len } => if v.streams.contains_key(id) {
            (touched(v, id, after_send(v.streams[id], len)), Ok(()))
        } else {
            (v, Err(Error::InvalidStream))
        },
        Op::Reset { id, err } => if v.streams.contains_key(id) {
            (touched(v, id, after_reset(v.streams[id], err)), Ok(()))
        } else {
            (v, Err(Error::InvalidStream))
        },
        Op::Finish { id } => if v.streams.contains_key(id) {
            (touched(v, id, after_finish(v.streams[id])), Ok(()))
        } else {
            (v, Err(Error::InvalidStream))
        },
        Op::Await { id } => if v.streams.contains_key(id) {
            (if active(v.streams[id]) { OpsView { awaiting: Some(id), ..v } } else { v }, Ok(()))
        } else {
            (v, Err(Error::InvalidStream))
        },
        _ => (v, Ok(())),
    }
}

/// What `apply` does to `v`: queued operations are carried out front first
/// while the server is not paused. An operation that cannot be carried out
/// stops the run and stays queued; an error stops it too.
pub open spec fn run(v: OpsView) -> (OpsView, Result<Option<Op>>)
    decreases v.queue.len(),
{
    if paused(v) || v.queue.len() == 0 {
        (v, Ok(None))
    } else {
        let op = v.queue[0];
        let v1 = OpsView { queue: v.queue.drop_first(), ..v };
        if !applicable(v1, op) {
            (v, Ok(Some(op)))
        } else {
            let (v2, r) = apply_op(v1, op);
            match r {
                Err(e) => (v2, Err(e)),
                Ok(_) => run(v2),
            }
        }
    }
}

/// What `flush` does to `v` and the bytes `out` queued for writing: the
/// scheduled streams write, front first, while fewer than
/// `MIN_SEND_BUFFER` bytes are queued; those with payload left go to the
/// back of the schedule (after the ones not reached), in order. A finished
/// stream found on the schedule stops the flush, and is returned.
pub open spec fn flush_run(v: OpsView, out: Seq<u8>, carried: Seq<u64>) -> (OpsView, Seq<u8>, Option<u64>)
    decreases v.scheduled.len(),
{
    if out.len() >= MIN_SEND_BUFFER || v.scheduled.len() == 0 {
        (OpsView { scheduled: v.scheduled + carried, ..v }, out, None)
    } else {
        let id = v.scheduled[0];
        let s = v.streams[id];
        if s is Finished {
            (OpsView { scheduled: v.scheduled + carried, ..v }, out, Some(id))
        } else {
            let v1 = OpsView {
                awaiting: if !has_work_after(s) && v.awaiting == Some(id) { None } else { v.awaiting },
                streams: v.streams.insert(id, after_write(s)),
                queue: v.queue,
                scheduled: v.scheduled.drop_first(),
            };
            flush_run(v1, out + write_bytes(s), if has_work_after(s) { carried.push(id) } else { carried })
        }
    }
}

/// The operations of a duplex server and the streams they opened.
#[derive(Debug)]
pub struct Ops {
    awaiting: Option<u64>,
    streams: HashMap<u64, Stream>,
    ops: VecDeque<Op>,
    pending_streams: VecDeque<u64>,
}

impl View for Ops {
    type V = OpsView;

    closed spec fn view(&self) -> OpsView {
        OpsView {
            awaiting: self.awaiting,
            streams: self.streams@,
            queue: self.ops@,
            scheduled: self.pending_streams@,
        }
    }
}

/// The awaited stream and every scheduled stream exist, and every stream
/// is well formed.
pub open spec fn view_wf(v: OpsView) -> bool {
    &&& v.awaiting matches Some(id) ==> v.streams.contains_key(id)
    &&& forall|i: int| 0 <= i < v.scheduled.len() ==> v.streams.contains_key(#[trigger] v.scheduled[i])
    &&& forall|id: u64| #[trigger] v.streams.contains_key(id) ==> stream_wf(v.streams[id])
}

proof fn lemma_apply_op_wf(v: OpsView, op: Op)
    requires
        view_wf(v),
        applicable(v, op),
    ensures
        view_wf(apply_op(v, op).0),
        apply_op(v, op).0.queue == v.queue,
{
    let v2 = apply_op(v, op).0;
    assert forall|i: int| 0 <= i < v2.scheduled.len() implies v2.streams.contains_key(#[trigger] v2.scheduled[i]) by {
        if i < v.scheduled.len() {
            assert(v2.scheduled[i] == v.scheduled[i]);
        }
    }
}

impl Default for Ops {
    fn default() -> (o: Self)
        ensures
            view_wf(o@),
            o@.awaiting is None,
            o@.streams == Map::<u64, Stream>::empty(),
            o@.queue == Seq::<Op>::empty(),
            o@.scheduled == Seq::<u64>::empty(),
    {
        Ops { awaiting: None, streams: HashMap::new(), ops: VecDeque::new(), pending_streams: VecDeque::new() }
    }
}

impl Ops {
    /// Whether operations are held back.
    pub fn is_paused(&self) -> (b: bool)
        requires
            view_wf(self@),
        ensures
            b == paused(self@),
    {
        match self.awaiting {
            Some(id) => match self.streams.get(&id) {
                Some(s) => !s.is_active(),
                None => true,
            },
            None => true,
        }
    }

    /// Whether `op` can be carried out now without a counter leaving its
    /// range; `apply_one` must not be given any other.
    pub fn is_applicable(&self, op: Op) -> (b: bool)
        ensures
            b == applicable(self@, op),
    {
        match op {
            Op::Wait { .. } => false,
            Op::Trace { .. } => false,
            Op::Send { id, len } => match self.streams.get(&id) {
                Some(Stream::Sending { sent, pending, .. }) => {
                    *pending <= usize::MAX - len && (*pending as u64) <= u64::MAX - *sent
                        && (len as u64) <= u64::MAX - *sent - (*pending as u64)
                },
                _ => true,
            },
            _ => true,
        }
    }

    /// Carries out `op`.
    pub fn apply_one(&mut self, op: Op) -> (r: Result<()>)
        requires
            view_wf(old(self)@),
            applicable(old(self)@, op),
        ensures
            view_wf(final(self)@),
            (final(self)@, r) == apply_op(old(self)@, op),
    {
        proof {
            lemma_apply_op_wf(self@, op);
        }
        match op {
            Op::BidirectionalStream { id } => {
                self.streams.insert(id, Stream::new(id));
                assert(self@ =~= apply_op(old(self)@, op).0);
                Ok(())
            },
            Op::UnidirectionalStream { id } => {
                self.streams.insert(id, Stream::new(id));
                assert(self@ =~= apply_op(old(self)@, op).0);
                Ok(())
            },
            Op::Send { id, len } => match self.streams.remove(&id) {
                None => Err(Error::InvalidStream),
                Some(mut s) => {
                    if !s.is_active() {
                        self.pending_streams.push_back(id);
                    }
                    s.send(len);
                    self.streams.insert(id, s);
                    proof {
                        assert(self.streams@ =~= old(self).streams@.insert(id, s));
                        assert(self@ =~= apply_op(old(self)@, op).0);
                    }
                    Ok(())
                },
            },
            Op::Reset { id, err } => match self.streams.remove(&id) {
                None => Err(Error::InvalidStream),
                Some(mut s) => {
                    if !s.is_active() {
                        self.pending_streams.push_back(id);
                    }
                    s.reset(err);
                    self.streams.insert(id, s);
                    proof {
                        assert(self.streams@ =~= old(self).streams@.insert(id, s));
                        assert(self@ =~= apply_op(old(self)@, op).0);
                    }
                    Ok(())
                },
            },
            Op::Finish { id } => match self.streams.remove(&id) {
                None => Err(Error::InvalidStream),
                Some(mut s) => {
                    if !s.is_active() {
                        self.pending_streams.push_back(id);
                    }
                    s.finish();
                    self.streams.insert(id, s);
                    proof {
                        assert(self.streams@ =~= old(self).streams@.insert(id, s));
                        assert(self@ =~= apply_op(old(self)@, op).0);
                    }
                    Ok(())
                },
            },
            Op::Await { id } => match self.streams.get(&id) {
                None => Err(Error::InvalidStream),
                Some(s) => {
                    if s.is_active() {
                        self.awaiting = Some(id);
                    }
                    assert(self@ =~= apply_op(old(self)@, op).0);
                    Ok(())
                },
            },
            _ => Ok(()),
        }
    }

    /// Takes in an operation: carried out at once unless operations are
    /// held back, queued otherwise. An operation that cannot be carried out
    /// now is handed back untouched.
    pub fn push(&mut self, op: Op) -> (r: Result<Option<Op>>)
        requires
            view_wf(old(self)@),
        ensures
            view_wf(final(self)@),
            paused(old(self)@) ==> r == Ok::<Option<Op>, Error>(None)
                && final(self)@ == (OpsView { queue: old(self)@.queue.push(op), ..old(self)@ }),
            !paused(old(self)@) && !applicable(old(self)@, op) ==> r == Ok::<Option<Op>, Error>(Some(op))
                && final(self)@ == old(self)@,
            !paused(old(self)@) && applicable(old(self)@, op) ==> final(self)@ == apply_op(old(self)@, op).0
                && r == match apply_op(old(self)@, op).1 {
                    Ok(_) => Ok::<Option<Op>, Error>(None),
                    Err(e) => Err(e),
                },
    {
        if !self.is_paused() {
            if !self.is_applicable(op) {
                return Ok(Some(op));
            }
            match self.apply_one(op) {
                Ok(()) => Ok(None),
                Err(e) => Err(e),
            }
        } else {
            self.ops.push_back(op);
            assert(self@ =~= (OpsView { queue: old(self)@.queue.push(op), ..old(self)@ }));
            Ok(None)
        }
    }

    /// Carries out the queued operations as `run` says.
    pub fn apply(&mut self) -> (r: Result<Option<Op>>)
        requires
            view_wf(old(self)@),
        ensures
            view_wf(final(self)@),
            (final(self)@, r) == run(old(self)@),
    {
        loop
            invariant
                view_wf(self@),
                run(old(self)@) == run(self@),
            decreases self@.queue.len(),
        {
            if self.is_paused() {
                return Ok(None);
            }
            let ghost v = self@;
            match self.ops.pop_front() {
                None => {
                    return Ok(None);
                },
                Some(op) => {
                    proof {
                        assert(v.queue[0] == op);
                        assert(self@ =~= (OpsView { queue: v.queue.drop_first(), ..v }));
                    }
                    if !self.is_applicable(op) {
                        self.ops.push_front(op);
                        proof {
                            assert(self@ =~= v);
                        }
                        return Ok(Some(op));
                    }
                    match self.apply_one(op) {
                        Ok(()) => {},
                        Err(e) => return Err(e),
                    }
                },
            }
        }
    }

    /// Lets the scheduled streams write into `b`, as `flush_run` says; the
    /// result is a finished stream found on the schedule, if any.
    pub fn flush(&mut self, b: &mut ByteVec) -> (stuck: Option<u64>)
        requires
            view_wf(old(self)@),
            old(b).wf(),
            old(b)@.len() < usize::MAX - MAX_CHUNK - 32,
        ensures
            view_wf(final(self)@),
            final(b).wf(),
            (final(self)@, final(b)@, stuck) == flush_run(old(self)@, old(b)@, Seq::<u64>::empty()),
    {
        let mut pending: Vec<u64> = Vec::new();
        loop
            invariant
                view_wf(self@),
                b.wf(),
                b@.len() < usize::MAX - MAX_CHUNK - 32,
                forall|i: int| 0 <= i < pending@.len() ==> self@.streams.contains_key(#[trigger] pending@[i]),
                flush_run(old(self)@, old(b)@, Seq::<u64>::empty()) == flush_run(self@, b@, pending@),
            ensures
                view_wf(self@),
                b.wf(),
                forall|i: int| 0 <= i < pending@.len() ==> self@.streams.contains_key(#[trigger] pending@[i]),
                flush_run(old(self)@, old(b)@, Seq::<u64>::empty()) == flush_run(self@, b@, pending@),
                b@.len() >= MIN_SEND_BUFFER || self@.scheduled.len() == 0,
            decreases self@.scheduled.len(),
        {
            let ghost v = self@;
            if b.len() >= MIN_SEND_BUFFER {
                break;
            }
            let id = match self.pending_streams.pop_front() {
                None => break,
                Some(id) => id,
            };
            proof {
                assert(v.scheduled[0] == id);
                assert(v.streams.contains_key(v.scheduled[0]));
            }
            let mut st = match self.streams.remove(&id) {
                None => {
                    // every scheduled stream exists
                    break;
                },
                Some(st) => st,
            };
            if let Stream::Finished = st {
                self.streams.insert(id, st);
                self.pending_streams.push_front(id);
                proof {
                    assert(self.streams@ =~= v.streams);
                    assert(self@ =~= v);
                }
                let mut i: usize = 0;
                while i < pending.len()
                    invariant
                        0 <= i <= pending@.len(),
                        self@ == (OpsView { scheduled: v.scheduled + pending@.take(i as int), ..v }),
                    decreases pending@.len() - i,
                {
                    self.pending_streams.push_back(pending[i]);
                    proof {
                        assert(pending@.take(i + 1) =~= pending@.take(i as int).push(pending@[i as int]));
                    }
                    i = i + 1;
                }
                proof {
                    assert(pending@.take(pending@.len() as int) =~= pending@);
                }
                return Some(id);
            }
            proof {
                lemma_write_bytes_len(st);
            }
            let has_work = st.write(b);
            self.streams.insert(id, st);
            if has_work {
                pending.push(id);
            } else if self.awaiting == Some(id) {
                self.awaiting = None;
            }
            proof {
                assert(self.streams@ =~= v.streams.insert(id, after_write(v.streams[id])));
                assert(self.pending_streams@ =~= v.scheduled.drop_first());
            }
        }
        let ghost v = self@;
        proof {
            assert(flush_run(v, b@, pending@) == (OpsView { scheduled: v.scheduled + pending@, ..v }, b@, None::<u64>));
        }
        let mut i: usize = 0;
        while i < pending.len()
            invariant
                0 <= i <= pending@.len(),
                view_wf(v),
                forall|j: int| 0 <= j < pending@.len() ==> v.streams.contains_key(#[trigger] pending@[j]),
                self@ == (OpsView { scheduled: v.scheduled + pending@.take(i as int), ..v }),
            decreases pending@.len() - i,
        {
            self.pending_streams.push_back(pending[i]);
            proof {
                assert(pending@.take(i + 1) =~= pending@.take(i as int).push(pending@[i as int]));
            }
            i = i + 1;
        }
        proof {
            assert(pending@.take(pending@.len() as int) =~= pending@);
            assert forall|k: int| 0 <= k < self@.scheduled.len() implies self@.streams.contains_key(
                #[trigger] self@.scheduled[k],
            ) by {
                if k >= v.scheduled.len() {
                    assert(self@.scheduled[k] == pending@[k - v.scheduled.len()]);
                }
            }
        }
        None
    }
}

} // verus!

verus! {

/// Why a server session cannot go on: in each case the operation or
/// stream named cannot be handled.
#[derive(Clone, Copy, Debug)]
pub enum Halt {
    /// An operation that cannot be carried out (a wait, a trace event, or a
    /// send whose byte count would overflow).
    Unsupported(Op),
    /// A wait whose duration cannot be represented.
    WaitOverflow,
    /// A finished stream was found on the schedule.
    FinishedStream(u64),
}

/// What taking in operation `op` does to `v`: queued while operations are
/// held back; otherwise carried out, or handed back when it cannot be.
pub open spec fn push_result(v: OpsView, op: Op) -> (OpsView, Result<Option<Op>>) {
    if paused(v) {
        (OpsView { queue: v.queue.push(op), ..v }, Ok(None))
    } else if !applicable(v, op) {
        (v, Ok(Some(op)))
    } else {
        (
            apply_op(v, op).0,
            match apply_op(v, op).1 {
                Ok(_) => Ok(None),
                Err(e) => Err(e),
            },
        )
    }
}

/// The bytes a decoder holds with tag `tag` pending.
pub open spec fn held_bytes(tag: Option<frame::Tag>) -> Seq<u8> {
    match tag {
        Some(t) => seq![frame::tag_byte(t)],
        None => Seq::<u8>::empty(),
    }
}

/// The end of a decoding run, when no operation is left unused.
pub open spec fn run_end(r: Result<Option<Halt>>, settle: bool, v: OpsView, ops: Seq<Op>) -> Option<
    (Result<Option<Halt>>, bool, OpsView),
> {
    if ops.len() == 0 {
        Some((r, settle, v))
    } else {
        None
    }
}

/// Decoding `bytes`, with tag `tag` held or the payload `stream` pending,
/// and taking in, in turn, the operations `ops` of the control frames
/// (which must be what those frames encode): the result when decoding
/// stops short, or `Ok(None)`, whether the queued operations are then
/// carried out (`true`), and the operations afterwards. `None` when `ops`
/// are not the operations decoded.
pub open spec fn decode_run(
    tag: Option<frame::Tag>,
    stream: Option<(u64, usize)>,
    bytes: Seq<u8>,
    v: OpsView,
    ops: Seq<Op>,
) -> Option<(Result<Option<Halt>>, bool, OpsView)>
    decreases bytes.len(),
{
    match stream {
        Some((id, rem)) => if bytes.len() == 0 {
            run_end(Ok(None), true, v, ops)
        } else if rem == 0 {
            None
        } else {
            let k: nat = if (rem as int) < bytes.len() { rem as nat } else { bytes.len() };
            decode_run(None, if k < rem { Some((id, (rem - k) as usize)) } else { None }, bytes.skip(k as int), v, ops)
        },
        None => {
            let eff = held_bytes(tag) + bytes;
            if frame::overflow_ahead(eff) {
                run_end(Ok(Some(Halt::WaitOverflow)), false, v, ops)
            } else {
                match frame::parse(eff) {
                    frame::Parsed::Partial { .. } => run_end(Ok(None), true, v, ops),
                    frame::Parsed::BadTag { .. } => run_end(Err(Error::InvalidFrameTag), false, v, ops),
                    frame::Parsed::DataHeader { id, data_len, len } => {
                        let rest = eff.skip(len as int);
                        if rest.len() == 0 {
                            run_end(Ok(None), true, v, ops)
                        } else if rest.len() < bytes.len() {
                            decode_run(None, Some((id, data_len as usize)), rest, v, ops)
                        } else {
                            None
                        }
                    },
                    frame::Parsed::Control { bytes: b, len } => {
                        let after = eff.skip(len as int);
                        if op_tag(b) > 7 {
                            run_end(Ok(None), true, v, ops)
                        } else if ops.len() > 0 && op_decoded(Some(ops[0]), op_tag(b), op_a(b), op_b(b))
                            && after.len() < bytes.len() {
                            let (v2, pr) = push_result(v, ops[0]);
                            match pr {
                                Err(e) => run_end(Err(e), false, v2, ops.drop_first()),
                                Ok(Some(op)) => run_end(Ok(Some(Halt::Unsupported(op))), false, v2, ops.drop_first()),
                                Ok(None) => decode_run(None, None, after, v2, ops.drop_first()),
                            }
                        } else {
                            None
                        }
                    },
                }
            }
        },
    }
}

/// A pending payload runs on whichever part of it arrives first: taking
/// `n` of its bytes leads to the same run.
pub proof fn lemma_decode_run_part(id: u64, rem: usize, bytes: Seq<u8>, v: OpsView, ops: Seq<Op>, n: nat)
    requires
        0 < n <= rem,
        n <= bytes.len(),
    ensures
        decode_run(None, Some((id, rem)), bytes, v, ops) == decode_run(
            None,
            if n < rem { Some((id, (rem - n) as usize)) } else { None },
            bytes.skip(n as int),
            v,
            ops,
        ),
{
    if n < rem && n < bytes.len() {
        let k: nat = if (rem as int) < bytes.len() { rem as nat } else { bytes.len() };
        let k2: nat = if ((rem - n) as int) < bytes.len() - n { (rem - n) as nat } else { (bytes.len() - n) as nat };
        assert(k2 == k - n);
        assert(bytes.skip(n as int).skip(k2 as int) =~= bytes.skip(k as int));
    }
}

/// A decoding step that gives nothing ends the run there, and the queued
/// operations are then carried out.
proof fn lemma_decode_run_none(tag: Option<frame::Tag>, bytes: Seq<u8>, v: OpsView, t2: Option<frame::Tag>, s2: Option<(u64, usize)>, after: Seq<u8>)
    requires
        !frame::overflow_ahead(held_bytes(tag) + bytes),
        frame::decoded(frame::parse(held_bytes(tag) + bytes), held_bytes(tag) + bytes, Ok(None), t2, s2, after),
    ensures
        decode_run(tag, None, bytes, v, Seq::<Op>::empty()) == Some((Ok::<Option<Halt>, Error>(None), true, v)),
{
}

/// A failed decoding step ends the run with its error.
proof fn lemma_decode_run_err(tag: Option<frame::Tag>, bytes: Seq<u8>, v: OpsView, e: Error, t2: Option<frame::Tag>, s2: Option<(u64, usize)>, after: Seq<u8>)
    requires
        !frame::overflow_ahead(held_bytes(tag) + bytes),
        frame::decoded(frame::parse(held_bytes(tag) + bytes), held_bytes(tag) + bytes, Err(e), t2, s2, after),
    ensures
        decode_run(tag, None, bytes, v, Seq::<Op>::empty()) == Some((Err::<Option<Halt>, Error>(e), false, v)),
{
}

/// A control frame that decodes as `op` hands `op` to the operations,
/// and the run goes on behind the frame unless taking `op` in stops it.
proof fn lemma_decode_run_control(
    tag: Option<frame::Tag>,
    bytes: Seq<u8>,
    v: OpsView,
    op: Op,
    after: Seq<u8>,
    rest: Seq<Op>,
)
    requires
        !frame::overflow_ahead(held_bytes(tag) + bytes),
        frame::decoded(
            frame::parse(held_bytes(tag) + bytes),
            held_bytes(tag) + bytes,
            Ok(Some(frame::Frame::Control { op })),
            None,
            None,
            after,
        ),
        held_bytes(tag).len() <= 1,
    ensures
        decode_run(tag, None, bytes, v, seq![op] + rest) == match push_result(v, op).1 {
            Err(e) => run_end(Err(e), false, push_result(v, op).0, rest),
            Ok(Some(o)) => run_end(Ok(Some(Halt::Unsupported(o))), false, push_result(v, op).0, rest),
            Ok(None) => decode_run(None, None, after, push_result(v, op).0, rest),
        },
{
    frame::lemma_parse_len(held_bytes(tag) + bytes);
    assert((seq![op] + rest)[0] == op);
    assert((seq![op] + rest).drop_first() =~= rest);
}

/// A stream frame whose payload part is `data` leaves the run as it was.
proof fn lemma_decode_run_data(
    tag: Option<frame::Tag>,
    bytes: Seq<u8>,
    v: OpsView,
    id: u64,
    data_len: nat,
    len: nat,
    data: Seq<u8>,
    s2: Option<(u64, usize)>,
    after: Seq<u8>,
    rest: Seq<Op>,
)
    requires
        !frame::overflow_ahead(held_bytes(tag) + bytes),
        held_bytes(tag).len() <= 1,
        frame::parse(held_bytes(tag) + bytes) == (frame::Parsed::DataHeader { id, data_len, len }),
        (held_bytes(tag) + bytes).skip(len as int).len() > 0,
        0 < data.len() <= data_len,
        (held_bytes(tag) + bytes).skip(len as int) == data + after,
        s2 == (if data.len() < data_len { Some((id, (data_len - data.len()) as usize)) } else { None }),
    ensures
        decode_run(tag, None, bytes, v, rest) == decode_run(None, s2, after, v, rest),
{
    let eff = held_bytes(tag) + bytes;
    frame::lemma_parse_len(eff);
    let rest_b = eff.skip(len as int);
    assert(rest_b.skip(data.len() as int) =~= after);
    assert((data_len as usize) as nat == data_len);
    lemma_decode_run_part(id, data_len as usize, rest_b, v, rest, data.len());
}

/// What carrying out the queued operations of `v`, and then letting the
/// scheduled streams write behind `out`, gives: `r` is the result, and
/// `v2` and `out2` the operations and the bytes to write afterwards.
pub open spec fn settles(v: OpsView, out: Seq<u8>, r: Result<Option<Halt>>, v2: OpsView, out2: Seq<u8>) -> bool {
    match run(v).1 {
        Err(e) => r == Err::<Option<Halt>, Error>(e),
        Ok(Some(op)) => r == Ok::<Option<Halt>, Error>(Some(Halt::Unsupported(op))),
        Ok(None) => {
            let f = flush_run(run(v).0, out, Seq::<u64>::empty());
            &&& v2 == f.0
            &&& out2 == f.1
            &&& r == Ok::<Option<Halt>, Error>(
                match f.2 {
                    Some(id) => Some(Halt::FinishedStream(id)),
                    None => None,
                },
            )
        },
    }
}

/// `r`, `v2` and `out2` are what processing gives when decoding ends as
/// `end`, with `out` queued for writing before: the result where decoding
/// stopped short, or else what carrying out the queued operations and
/// flushing gives.
pub open spec fn processed(
    end: Option<(Result<Option<Halt>>, bool, OpsView)>,
    out: Seq<u8>,
    r: Result<Option<Halt>>,
    v2: OpsView,
    out2: Seq<u8>,
) -> bool {
    match end {
        None => false,
        Some((res, settle, v)) => if settle {
            settles(v, out, r, v2, out2)
        } else {
            r == res && v2 == v && out2 == out
        },
    }
}

/// The state of one duplex server connection, apart from the transport:
/// the bytes read and not yet decoded, the bytes waiting to be written,
/// the operations, and the frame decoder.
#[derive(Debug)]
pub struct Session {
    read_vec: ByteVec,
    write_vec: ByteVec,
    ops: Ops,
    decoder: frame::Decoder,
}

impl Session {
    /// Both queues are consistent, and so are the operations.
    pub closed spec fn wf(&self) -> bool {
        &&& self.read_vec.wf()
        &&& self.write_vec.wf()
        &&& self.decoder.wf()
        &&& view_wf(self.ops@)
    }

    /// The bytes read and not yet decoded.
    pub closed spec fn incoming(&self) -> Seq<u8> {
        self.read_vec@
    }

    /// The bytes waiting to be written.
    pub closed spec fn outgoing(&self) -> Seq<u8> {
        self.write_vec@
    }

    /// The operations and streams.
    pub closed spec fn ops(&self) -> OpsView {
        self.ops@
    }

    /// The state of the frame decoder.
    pub closed spec fn decoder_state(&self) -> frame::Decoder {
        self.decoder
    }

    /// No whole frame is left in the bytes read so far.
    pub open spec fn decoding_idle(&self) -> bool {
        self.decoder_state().idle_on(self.incoming())
    }

    /// A session with nothing read, nothing to write and no stream.
    pub fn new() -> (s: Self)
        ensures
            s.wf(),
            s.incoming() == Seq::<u8>::empty(),
            s.outgoing() == Seq::<u8>::empty(),
            s.ops().queue == Seq::<Op>::empty(),
            s.ops().streams == Map::<u64, Stream>::empty(),
    {
        Session {
            read_vec: ByteVec::default(),
            write_vec: ByteVec::default(),
            ops: Ops::default(),
            decoder: frame::Decoder::default(),
        }
    }

    /// The number of bytes read and not yet decoded.
    pub fn incoming_len(&self) -> (n: usize)
        requires
            self.wf(),
        ensures
            n == self.incoming().len(),
    {
        self.read_vec.len()
    }

    /// Takes in bytes read from the transport.
    pub fn on_read(&mut self, chunk: bytes::Bytes)
        requires
            old(self).wf(),
            old(self).incoming().len() + bytes_view(chunk).len() <= usize::MAX - 1,
        ensures
            final(self).wf(),
            final(self).incoming() == old(self).incoming() + bytes_view(chunk),
            final(self).outgoing() == old(self).outgoing(),
            final(self).ops() == old(self).ops(),
    {
        self.read_vec.push(chunk);
    }

    /// Whether bytes wait to be written.
    pub fn wants_write(&self) -> (b: bool)
        requires
            self.wf(),
        ensures
            b == (self.outgoing().len() > 0),
    {
        !self.write_vec.is_empty()
    }

    /// The next bytes to write: the front chunk of the write queue.
    pub fn next_output(&self) -> (s: &[u8])
        requires
            self.wf(),
        ensures
            s@ == self.outgoing().take(s@.len() as int),
            (s@.len() == 0) == (self.outgoing().len() == 0),
    {
        proof {
            self.write_vec.lemma_front_len();
        }
        self.write_vec.chunk()
    }

    /// Records that the transport took the first `len` queued bytes.
    pub fn on_written(&mut self, len: usize)
        requires
            old(self).wf(),
            len <= old(self).outgoing().len(),
        ensures
            final(self).wf(),
            final(self).outgoing() == old(self).outgoing().skip(len as int),
            final(self).incoming() == old(self).incoming(),
            final(self).ops() == old(self).ops(),
    {
        self.write_vec.advance(len);
    }

    /// Decodes every whole frame read so far and takes in the operations of
    /// the control frames (stream frames are ignored); then carries out the
    /// queued operations, and lets the scheduled streams write. Stops with
    /// `Ok(Some(..))` at what cannot be handled, and with `Err` at a frame
    /// or an operation that is invalid.
    pub fn process(&mut self) -> (r: Result<Option<Halt>>)
        requires
            old(self).wf(),
            old(self).incoming().len() < usize::MAX,
            old(self).outgoing().len() < usize::MAX - MAX_CHUNK - 32,
        ensures
            final(self).wf(),
            final(self).incoming().len() <= old(self).incoming().len(),
            r == Ok::<Option<Halt>, Error>(None) ==> exists|v: OpsView| #[trigger] view_wf(v)
                && run(v).1 == Ok::<Option<Op>, Error>(None)
                && flush_run(run(v).0, old(self).outgoing(), Seq::<u64>::empty()) == (
                final(self).ops(),
                final(self).outgoing(),
                None::<u64>,
            ),
            r matches Ok(Some(Halt::FinishedStream(id))) ==> exists|v: OpsView| #[trigger] view_wf(v)
                && run(v).1 == Ok::<Option<Op>, Error>(None)
                && flush_run(run(v).0, old(self).outgoing(), Seq::<u64>::empty()) == (
                final(self).ops(),
                final(self).outgoing(),
                Some(id),
            ),
            old(self).decoding_idle() ==> final(self).incoming() == old(self).incoming() && settles(
                old(self).ops(),
                old(self).outgoing(),
                r,
                final(self).ops(),
                final(self).outgoing(),
            ),
            r is Err ==> final(self).incoming().len() < old(self).incoming().len() || run(old(self).ops()).1 is Err,
            exists|ops: Seq<Op>| #[trigger] processed(
                decode_run(
                    old(self).decoder_state().pending_tag(),
                    old(self).decoder_state().pending_stream(),
                    old(self).incoming(),
                    old(self).ops(),
                    ops,
                ),
                old(self).outgoing(),
                r,
                final(self).ops(),
                final(self).outgoing(),
            ),
    {
        let ghost idle0 = old(self).decoding_idle();
        let ghost t0 = old(self).decoder.pending_tag();
        let ghost s0 = old(self).decoder.pending_stream();
        let ghost by0 = old(self).read_vec@;
        let ghost v0 = old(self).ops@;
        let ghost mut done: Seq<Op> = Seq::empty();
        proof {
            assert forall|rest: Seq<Op>| #[trigger] decode_run(t0, s0, by0, v0, done + rest) == decode_run(
                self.decoder.pending_tag(),
                self.decoder.pending_stream(),
                self.read_vec@,
                self.ops@,
                rest,
            ) by {
                assert(done + rest =~= rest);
            }
        }
        loop
            invariant_except_break
                forall|rest: Seq<Op>| #[trigger] decode_run(t0, s0, by0, v0, done + rest) == decode_run(
                    self.decoder.pending_tag(),
                    self.decoder.pending_stream(),
                    self.read_vec@,
                    self.ops@,
                    rest,
                ),
            invariant
                self.wf(),
                self.read_vec@.len() <= old(self).read_vec@.len(),
                self.read_vec@.len() < usize::MAX,
                self.write_vec == old(self).write_vec,
                idle0 == old(self).decoding_idle(),
                idle0 ==> self.read_vec@ == old(self).read_vec@ && self.ops@ == old(self).ops@
                    && self.decoder.pending_tag() == old(self).decoder.pending_tag()
                    && self.decoder.pending_stream() == old(self).decoder.pending_stream(),
                self.read_vec@.len() == old(self).read_vec@.len() ==> self.ops@ == old(self).ops@,
                t0 == old(self).decoder.pending_tag(),
                s0 == old(self).decoder.pending_stream(),
                by0 == old(self).read_vec@,
                v0 == old(self).ops@,
            ensures
                decode_run(t0, s0, by0, v0, done) == Some((Ok::<Option<Halt>, Error>(None), true, self.ops@)),
            decreases self.read_vec@.len(),
        {
            let ghost d0 = self.decoder;
            let ghost b0 = self.read_vec@;
            let ghost ops0 = self.ops@;
            proof {
                self.decoder.lemma_wf();
                assert(held_bytes(self.decoder.pending_tag()) == self.decoder.held());
                assert(done + Seq::<Op>::empty() =~= done);
                assert(decode_run(t0, s0, by0, v0, done + Seq::<Op>::empty()) == decode_run(
                    d0.pending_tag(), d0.pending_stream(), b0, ops0, Seq::<Op>::empty()));
                if idle0 && self.decoder.pending_stream() is None {
                    frame::lemma_idle_no_overflow(self.decoder, self.read_vec@);
                }
            }
            if self.decoder.overflow_ahead(&self.read_vec) {
                let res = Ok(Some(Halt::WaitOverflow));
                assert(processed(decode_run(t0, s0, by0, v0, done), old(self).outgoing(), res, final(self).ops(), final(self).outgoing()));
                return res;
            }
            let frame = match self.decoder.decode(&mut self.read_vec) {
                Err(e) => {
                    proof {
                        frame::lemma_decoded_err_consumes(d0.held(), b0, Err(e), self.decoder.pending_tag(),
                            self.decoder.pending_stream(), self.read_vec@);
                        lemma_decode_run_err(d0.pending_tag(), b0, ops0, e, self.decoder.pending_tag(),
                            self.decoder.pending_stream(), self.read_vec@);
                    }
                    let res = Err(e);
                    assert(processed(decode_run(t0, s0, by0, v0, done), old(self).outgoing(), res, final(self).ops(), final(self).outgoing()));
                    return res;
                },
                Ok(None) => {
                    proof {
                        if d0.pending_stream() is None {
                            lemma_decode_run_none(d0.pending_tag(), b0, ops0, self.decoder.pending_tag(),
                                self.decoder.pending_stream(), self.read_vec@);
                            if idle0 {
                                assert((d0.held() + b0).skip(d0.held().len() as int) =~= b0);
                            }
                        }
                    }
                    break;
                },
                Ok(Some(f)) => f,
            };
            assert(!idle0);
            match frame {
                frame::Frame::Control { op } => {
                    let ghost after = self.read_vec@;
                    proof {
                        assert forall|rest: Seq<Op>| #[trigger] decode_run(t0, s0, by0, v0, done.push(op) + rest)
                            == decode_run(d0.pending_tag(), None, b0, ops0, seq![op] + rest) by {
                            assert(done.push(op) + rest =~= done + (seq![op] + rest));
                        }
                        assert forall|rest: Seq<Op>| #[trigger] decode_run(d0.pending_tag(), None, b0, ops0, seq![op] + rest)
                            == match push_result(ops0, op).1 {
                                Err(e) => run_end(Err(e), false, push_result(ops0, op).0, rest),
                                Ok(Some(o)) => run_end(Ok(Some(Halt::Unsupported(o))), false, push_result(ops0, op).0, rest),
                                Ok(None) => decode_run(None, None, after, push_result(ops0, op).0, rest),
                            } by {
                            lemma_decode_run_control(d0.pending_tag(), b0, ops0, op, after, rest);
                        }
                    }
                    match self.ops.push(op) {
                        Err(e) => {
                            proof {
                                assert(decode_run(t0, s0, by0, v0, done.push(op) + Seq::<Op>::empty())
                                    == Some((Err::<Option<Halt>, Error>(e), false, self.ops@)));
                                assert(done.push(op) + Seq::<Op>::empty() =~= done.push(op));
                            }
                            let res = Err(e);
                            assert(processed(decode_run(t0, s0, by0, v0, done.push(op)), old(self).outgoing(), res, final(self).ops(), final(self).outgoing()));
                            return res;
                        },
                        Ok(Some(op2)) => {
                            proof {
                                assert(decode_run(t0, s0, by0, v0, done.push(op) + Seq::<Op>::empty())
                                    == Some((Ok::<Option<Halt>, Error>(Some(Halt::Unsupported(op2))), false, self.ops@)));
                                assert(done.push(op) + Seq::<Op>::empty() =~= done.push(op));
                            }
                            let res = Ok(Some(Halt::Unsupported(op2)));
                            assert(processed(decode_run(t0, s0, by0, v0, done.push(op)), old(self).outgoing(), res, final(self).ops(), final(self).outgoing()));
                            return res;
                        },
                        Ok(None) => {
                            proof {
                                done = done.push(op);
                            }
                        },
                    }
                },
                frame::Frame::Stream { data, .. } => {
                    proof {
                        let n = bytes_view(data).len();
                        match d0.pending_stream() {
                            Some((id, rem)) => {
                                assert(b0.skip(n as int) =~= self.read_vec@);
                                assert forall|rest: Seq<Op>| #[trigger] decode_run(t0, s0, by0, v0, done + rest)
                                    == decode_run(self.decoder.pending_tag(), self.decoder.pending_stream(),
                                    self.read_vec@, self.ops@, rest) by {
                                    lemma_decode_run_part(id, rem, b0, ops0, rest, n);
                                }
                            },
                            None => {
                                let eff = d0.held() + b0;
                                match frame::parse(eff) {
                                    frame::Parsed::DataHeader { id, data_len, len } => {
                                        assert forall|rest: Seq<Op>| #[trigger] decode_run(t0, s0, by0, v0, done + rest)
                                            == decode_run(self.decoder.pending_tag(), self.decoder.pending_stream(),
                                            self.read_vec@, self.ops@, rest) by {
                                            lemma_decode_run_data(d0.pending_tag(), b0, ops0, id, data_len, len,
                                                bytes_view(data), self.decoder.pending_stream(), self.read_vec@, rest);
                                        }
                                    },
                                    _ => {},
                                }
                            },
                        }
                    }
                },
            }
        }
        let ghost mid = self.ops@;
        match self.ops.apply() {
            Err(e) => {
                let res = Err(e);
                assert(processed(decode_run(t0, s0, by0, v0, done), old(self).outgoing(), res, final(self).ops(), final(self).outgoing()));
                return res;
            },
            Ok(Some(op)) => {
                let res = Ok(Some(Halt::Unsupported(op)));
                assert(processed(decode_run(t0, s0, by0, v0, done), old(self).outgoing(), res, final(self).ops(), final(self).outgoing()));
                return res;
            },
            Ok(None) => {},
        }
        match self.ops.flush(&mut self.write_vec) {
            Some(id) => {
                assert(view_wf(mid) && run(mid).1 == Ok::<Option<Op>, Error>(None));
                let res = Ok(Some(Halt::FinishedStream(id)));
                assert(processed(decode_run(t0, s0, by0, v0, done), old(self).outgoing(), res, final(self).ops(), final(self).outgoing()));
                return res;
            },
            None => {
                assert(view_wf(mid) && run(mid).1 == Ok::<Option<Op>, Error>(None));
                let res = Ok(None);
                assert(processed(decode_run(t0, s0, by0, v0, done), old(self).outgoing(), res, final(self).ops(), final(self).outgoing()));
                return res;
            },
        }
    }
}

} // verus!

verus! {

/// Finishing a sending stream marks it finished, keeping its id, offset and
/// pending payload, and schedules it for writing if it was idle; the next
/// write of it carries its pending payload chunk and then the finish tag
/// and its id, after which nothing more is written on it. Other streams,
/// the awaited stream and the queue stay as they are. Finishing a stream
/// that does not exist fails with `InvalidStream` and changes nothing.
pub proof fn law_finish_writes_finish_frame(v: OpsView, id: u64, other: u64)
    ensures
        !v.streams.contains_key(id) ==> apply_op(v, Op::Finish { id }) == (v, Err::<(), Error>(Error::InvalidStream)),
        v.streams.contains_key(id) && v.streams[id] is Sending ==> ({
            let (v2, r) = apply_op(v, Op::Finish { id });
            let s = v.streams[id];
            let s2 = v2.streams[id];
            &&& r is Ok
            &&& v2.streams.contains_key(id)
            &&& s2 == (Stream::Sending {
                id: s->Sending_id,
                sent: s->Sending_sent,
                pending: s->Sending_pending,
                finished: true,
            })
            &&& active(s2)
            &&& v2.scheduled == (if active(s) { v.scheduled } else { v.scheduled.push(id) })
            &&& write_bytes(s2) == write_bytes(
                Stream::Sending {
                    id: s->Sending_id,
                    sent: s->Sending_sent,
                    pending: s->Sending_pending,
                    finished: false,
                },
            ) + (seq![2u8] + u64_bytes(s->Sending_id))
            &&& after_write(s2) == Stream::Finished
            &&& other != id ==> v2.streams.contains_key(other) == v.streams.contains_key(other)
                && v2.streams[other] == v.streams[other]
            &&& v2.awaiting == v.awaiting
            &&& v2.queue == v.queue
        }),
{
}

/// A flush with room in the buffer, on a schedule holding only a stream
/// that is marked finished, writes that stream's pending payload chunk
/// followed by the finish tag and its id, leaves the stream finished and the
/// schedule empty.
pub proof fn law_flush_finished_stream(v: OpsView, out: Seq<u8>, id: u64, sent: u64, pending: usize)
    requires
        v.scheduled == seq![id],
        v.streams.contains_key(id),
        v.streams[id] == (Stream::Sending { id, sent, pending, finished: true }),
        out.len() < MIN_SEND_BUFFER,
    ensures
        ({
            let (v2, out2, stuck) = flush_run(v, out, Seq::<u64>::empty());
            let data = if pending > 0 {
                seq![1u8] + u64_bytes(id) + payload_seq(sent as int, chunk_len(pending))
            } else {
                Seq::<u8>::empty()
            };
            &&& out2 == out + data + (seq![2u8] + u64_bytes(id))
            &&& stuck is None
            &&& v2.streams[id] == Stream::Finished
            &&& v2.scheduled.len() == 0
        }),
{
    let s = v.streams[id];
    let v1 = OpsView {
        awaiting: if !has_work_after(s) && v.awaiting == Some(id) { None } else { v.awaiting },
        streams: v.streams.insert(id, after_write(s)),
        queue: v.queue,
        scheduled: v.scheduled.drop_first(),
    };
    assert(v1.scheduled.len() == 0);
    assert(flush_run(v, out, Seq::<u64>::empty()) == flush_run(v1, out + write_bytes(s), Seq::<u64>::empty()));
    assert(v1.scheduled + Seq::<u64>::empty() =~= Seq::<u64>::empty());
}

/// Resetting a sending stream turns it into a reset with the operation's
/// error code, scheduled for writing if it was idle; its next write is its
/// id and then that code, after which nothing more is written on it. Other
/// streams stay as they are; a stream that does not exist cannot be reset.
pub proof fn law_reset_writes_code(v: OpsView, id: u64, err: u64, other: u64)
    ensures
        !v.streams.contains_key(id) ==> apply_op(v, Op::Reset { id, err }) == (v, Err::<(), Error>(Error::InvalidStream)),
        v.streams.contains_key(id) && v.streams[id] is Sending ==> ({
            let (v2, r) = apply_op(v, Op::Reset { id, err });
            let s = v.streams[id];
            let s2 = v2.streams[id];
            &&& r is Ok
            &&& s2 == (Stream::Reset { id: s->Sending_id, err })
            &&& v2.scheduled == (if active(s) { v.scheduled } else { v.scheduled.push(id) })
            &&& write_bytes(s2) == u64_bytes(s->Sending_id) + u64_bytes(err)
            &&& after_write(s2) == Stream::Finished
            &&& other != id ==> v2.streams.contains_key(other) == v.streams.contains_key(other)
                && v2.streams[other] == v.streams[other]
        }),
{
}

/// Sending on a stream queues `len` more payload bytes behind those already
/// pending, at the same offset, and schedules the stream if it was idle;
/// other streams stay as they are, and a stream that does not exist cannot
/// be sent on.
pub proof fn law_send_queues_payload(v: OpsView, id: u64, len: usize, other: u64)
    ensures
        !v.streams.contains_key(id) ==> apply_op(v, Op::Send { id, len }) == (v, Err::<(), Error>(Error::InvalidStream)),
        v.streams.contains_key(id) && v.streams[id] is Sending ==> ({
            let (v2, r) = apply_op(v, Op::Send { id, len });
            let s = v.streams[id];
            &&& r is Ok
            &&& v2.streams[id] == (Stream::Sending {
                id: s->Sending_id,
                sent: s->Sending_sent,
                pending: (s->Sending_pending + len) as usize,
                finished: s->Sending_finished,
            })
            &&& v2.scheduled == (if active(s) { v.scheduled } else { v.scheduled.push(id) })
            &&& other != id ==> v2.streams.contains_key(other) == v.streams.contains_key(other)
                && v2.streams[other] == v.streams[other]
        }),
{
}

} // verus!
