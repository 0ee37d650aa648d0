//! Streams multiplexed over a single ordered byte transport, with flow
//! control per stream and on the number of streams.

use crate::byte_buf::{
    bytes_advance, bytes_from_vec, bytes_len, bytes_view, flatten, lemma_flatten_cons,
    lemma_flatten_push,
};
use crate::connection::{flip, Owner};
use std::collections::{HashMap, VecDeque};
use crate::connection::wake;
use crate::{Error, Result};
use core::task::{Context, Poll};
use vstd::prelude::*;

pub mod frame;

verus! {

broadcast use vstd::std_specs::hash::group_hash_axioms;

/// The receive window of a stream when the peer does not announce another.
pub const DEFAULT_STREAM_WINDOW: u64 = 256000;

/// The number of streams a peer may open at first.
pub const DEFAULT_MAX_STREAMS: u64 = 100;

/// The limits of a multiplexed connection.
#[derive(Clone, Debug)]
pub struct Config {
    pub stream_window: u64,
    pub max_streams: u64,
    pub max_stream_data_thresh: u64,
    pub max_stream_frame_len: u32,
    pub max_write_queue_len: usize,
}

impl Default for Config {
    fn default() -> (c: Self)
        ensures
            c.stream_window == DEFAULT_STREAM_WINDOW,
            c.max_streams == DEFAULT_MAX_STREAMS,
            c.max_stream_data_thresh == DEFAULT_STREAM_WINDOW / 2,
            c.max_stream_frame_len == 32768,
            c.max_write_queue_len == 250,
    {
        assert((1u32 << 15u32) == 32768) by (bit_vector);
        Config {
            stream_window: DEFAULT_STREAM_WINDOW,
            max_streams: DEFAULT_MAX_STREAMS,
            max_stream_data_thresh: DEFAULT_STREAM_WINDOW / 2,
            max_stream_frame_len: 1u32 << 15u32,
            max_write_queue_len: 250,
        }
    }
}

/// Whether a task waits for this object to change.
#[derive(Debug)]
pub struct Blocked(pub bool);

impl Default for Blocked {
    fn default() -> (b: Self)
        ensures
            !b.0,
    {
        Blocked(false)
    }
}

impl Blocked {
    /// Records that a task waits.
    pub fn block(&mut self)
        ensures
            final(self).0,
    {
        self.0 = true;
    }

    /// Wakes the waiting task, if there is one.
    pub fn unblock(&mut self, cx: &mut Context)
        ensures
            !final(self).0,
    {
        if self.0 {
            self.0 = false;
            wake(cx);
        }
    }
}

/// The receiving half of a stream: the offsets received by the
/// application, buffered from the peer, and allowed to the peer.
#[derive(Debug)]
pub struct ReceiveStream {
    received_offset: u64,
    buffered_offset: u64,
    window_offset: u64,
    is_finished: bool,
    blocked: Blocked,
}

impl ReceiveStream {
    /// The application never receives more than was buffered, and the peer
    /// never buffers more than its window allows.
    pub closed spec fn wf(&self) -> bool {
        self.received_offset <= self.buffered_offset <= self.window_offset
    }

    pub closed spec fn received(&self) -> u64 {
        self.received_offset
    }

    pub closed spec fn buffered(&self) -> u64 {
        self.buffered_offset
    }

    pub closed spec fn window(&self) -> u64 {
        self.window_offset
    }

    pub closed spec fn finished(&self) -> bool {
        self.is_finished
    }

    pub closed spec fn waiting(&self) -> bool {
        self.blocked.0
    }

    /// This stream with its window at `w`.
    pub closed spec fn with_window(self, w: u64) -> ReceiveStream {
        ReceiveStream { window_offset: w, ..self }
    }

    /// A stream that allows the peer `window_offset` bytes.
    pub fn new(window_offset: u64) -> (s: Self)
        ensures
            s.wf(),
            s.received() == 0,
            s.buffered() == 0,
            s.window() == window_offset,
            !s.finished(),
            !s.waiting(),
    {
        ReceiveStream {
            received_offset: 0,
            buffered_offset: 0,
            window_offset,
            is_finished: false,
            blocked: Blocked::default(),
        }
    }

    /// Buffers up to `len` bytes from the peer, as many as the window
    /// allows, and returns how many; fails once the peer finished the
    /// stream.
    pub fn buffer(&mut self, len: u64, cx: &mut Context) -> (r: Result<u64>)
        requires
            old(self).wf(),
        ensures
            final(self).wf(),
            final(self).received() == old(self).received(),
            final(self).window() == old(self).window(),
            final(self).finished() == old(self).finished(),
            old(self).finished() ==> r == Err::<u64, Error>(Error::StreamFinished) && final(self).buffered() == old(self).buffered(),
            !old(self).finished() ==> r == Ok::<u64, Error>(min(len as int, old(self).window() - old(self).buffered()) as u64)
                && final(self).buffered() == old(self).buffered() + r->Ok_0,
            r == Ok::<u64, Error>(0) || r is Err ==> *final(self) == *old(self),
            r matches Ok(n) && n > 0 ==> !final(self).waiting(),
    {
        if self.is_finished {
            return Err(Error::StreamFinished);
        }
        let room = self.window_offset - self.buffered_offset;
        let len = if room < len { room } else { len };
        if len == 0 {
            return Ok(0);
        }
        self.buffered_offset = self.buffered_offset + len;
        self.blocked.unblock(cx);
        Ok(len)
    }

    /// Hands up to `len` buffered bytes to the application. With nothing
    /// buffered, it is `Ready(Ok(0))` once the stream is finished and
    /// `Pending` (waiting) until then.
    pub fn receive(&mut self, len: u64) -> (r: Poll<Result<u64>>)
        requires
            old(self).wf(),
        ensures
            final(self).wf(),
            final(self).buffered() == old(self).buffered(),
            final(self).window() == old(self).window(),
            final(self).finished() == old(self).finished(),
            ({
                let n = min(len as int, old(self).buffered() - old(self).received());
                if n > 0 {
                    r == Poll::Ready(Ok::<u64, Error>(n as u64)) && final(self).received() == old(self).received() + n
                } else if old(self).finished() {
                    r == Poll::Ready(Ok::<u64, Error>(0)) && final(self).received() == old(self).received()
                } else {
                    r is Pending && final(self).waiting() && final(self).received() == old(self).received()
                }
            }),
    {
        let avail = self.buffered_offset - self.received_offset;
        let len = if avail < len { avail } else { len };
        if len == 0 {
            return if self.is_finished {
                Poll::Ready(Ok(0))
            } else {
                self.blocked.block();
                Poll::Pending
            };
        }
        self.received_offset = self.received_offset + len;
        Poll::Ready(Ok(len))
    }

    /// Records that the peer finished the stream.
    pub fn finish(&mut self, cx: &mut Context)
        requires
            old(self).wf(),
        ensures
            final(self).wf(),
            final(self).finished(),
            !final(self).waiting(),
            final(self).received() == old(self).received(),
            final(self).buffered() == old(self).buffered(),
            final(self).window() == old(self).window(),
    {
        self.is_finished = true;
        self.blocked.unblock(cx);
    }

    /// The bytes the peer may still send before the application receives
    /// more.
    pub fn receive_window(&self) -> (w: u64)
        requires
            self.wf(),
        ensures
            w == self.window() - self.received(),
    {
        self.window_offset - self.received_offset
    }

    /// Allows the peer `credits` more bytes and returns the new window.
    pub fn credit(&mut self, credits: u64) -> (w: u64)
        requires
            old(self).wf(),
            old(self).window() + credits <= u64::MAX,
        ensures
            final(self).wf(),
            w == final(self).window(),
            final(self).window() == old(self).window() + credits,
            final(self).received() == old(self).received(),
            final(self).buffered() == old(self).buffered(),
            final(self).finished() == old(self).finished(),
            *final(self) == old(self).with_window(w),
    {
        self.window_offset = self.window_offset + credits;
        self.window_offset
    }
}

/// The smaller of two integers.
pub open spec fn min(a: int, b: int) -> int {
    if a < b {
        a
    } else {
        b
    }
}

/// Counts the streams opened against the number allowed.
#[derive(Debug)]
pub struct StreamController {
    open_offset: u64,
    window_offset: u64,
    blocked: Blocked,
}

impl Default for StreamController {
    fn default() -> (c: Self)
        ensures
            c.opened() == 0,
            c.allowed() == 0,
    {
        StreamController::new(0)
    }
}

impl StreamController {
    pub closed spec fn opened(&self) -> u64 {
        self.open_offset
    }

    pub closed spec fn allowed(&self) -> u64 {
        self.window_offset
    }

    pub closed spec fn waiting(&self) -> bool {
        self.blocked.0
    }

    /// A controller allowing `window_offset` streams.
    pub fn new(window_offset: u64) -> (c: Self)
        ensures
            c.opened() == 0,
            c.allowed() == window_offset,
            !c.waiting(),
    {
        StreamController { open_offset: 0, window_offset, blocked: Blocked::default() }
    }

    /// Opens a stream when one more is allowed; `Pending` (waiting) when
    /// not.
    pub fn open(&mut self) -> (r: Poll<()>)
        ensures
            final(self).allowed() == old(self).allowed(),
            old(self).opened() < old(self).allowed() ==> r is Ready && final(self).opened() == old(self).opened() + 1,
            old(self).opened() >= old(self).allowed() ==> r is Pending && final(self).waiting()
                && final(self).opened() == old(self).opened(),
    {
        if self.capacity() == 0 {
            self.blocked.block();
            return Poll::Pending;
        }
        self.open_offset = self.open_offset + 1;
        Poll::Ready(())
    }

    /// Allows `up_to` streams in all.
    pub fn max_streams(&mut self, up_to: u64, cx: &mut Context)
        ensures
            final(self).allowed() == up_to,
            final(self).opened() == old(self).opened(),
            !final(self).waiting(),
    {
        self.window_offset = up_to;
        self.blocked.unblock(cx)
    }

    /// The number of streams that may still be opened; none when the
    /// allowance fell below the streams already open.
    pub fn capacity(&self) -> (n: u64)
        ensures
            n == if self.opened() <= self.allowed() { self.allowed() - self.opened() } else { 0 },
    {
        if self.open_offset <= self.window_offset {
            self.window_offset - self.open_offset
        } else {
            0
        }
    }
}

} // verus!

verus! {

/// The byte at position `offset` of the test payload that streams send: the
/// low byte of its offset.
pub open spec fn payload_byte(offset: int) -> u8 {
    (offset % 256) as u8
}

/// The `len` payload bytes that start at `offset`.
pub(crate) fn payload(offset: u64, len: usize) -> (b: bytes::Bytes)
    ensures
        bytes_view(b).len() == len,
        forall|i: int| 0 <= i < len ==> #[trigger] bytes_view(b)[i] == payload_byte(offset + i),
{
    let mut v: Vec<u8> = Vec::new();
    let mut i: usize = 0;
    let mut byte: u8 = (offset % 256) as u8;
    while i < len
        invariant
            i <= len,
            v@.len() == i,
            byte == payload_byte(offset + i),
            forall|j: int| 0 <= j < i ==> #[trigger] v@[j] == payload_byte(offset + j),
        decreases len - i,
    {
        v.push(byte);
        byte = if byte == 255 { 0 } else { byte + 1 };
        i = i + 1;
    }
    bytes_from_vec(v)
}

/// The sending half of a stream: the data sent so far against the limit
/// the peer allows.
#[derive(Debug)]
pub struct SendStream {
    max_data: u64,
    offset: u64,
    blocked: Blocked,
}

impl SendStream {
    /// Never more is sent than the peer allows.
    pub closed spec fn wf(&self) -> bool {
        self.offset <= self.max_data
    }

    pub closed spec fn limit(&self) -> u64 {
        self.max_data
    }

    pub closed spec fn sent(&self) -> u64 {
        self.offset
    }

    pub closed spec fn waiting(&self) -> bool {
        self.blocked.0
    }

    /// A stream that may send `max_data` bytes.
    pub fn new(max_data: u64) -> (s: Self)
        ensures
            s.wf(),
            s.limit() == max_data,
            s.sent() == 0,
            !s.waiting(),
    {
        SendStream { max_data, offset: 0, blocked: Blocked::default() }
    }

    /// Raises the limit to `max_data`; a lower value leaves it as it is.
    pub fn max_data(&mut self, max_data: u64, cx: &mut Context)
        requires
            old(self).wf(),
        ensures
            final(self).wf(),
            final(self).limit() == if max_data > old(self).limit() { max_data } else { old(self).limit() },
            final(self).sent() == old(self).sent(),
            !final(self).waiting(),
    {
        self.max_data = if max_data > self.max_data { max_data } else { self.max_data };
        self.blocked.unblock(cx)
    }

    /// Sends up to `len` payload bytes, as many as the limit allows; `None`
    /// (waiting) when it allows none.
    pub fn send(&mut self, len: u64) -> (r: Option<bytes::Bytes>)
        requires
            old(self).wf(),
            len <= usize::MAX,
        ensures
            final(self).wf(),
            final(self).limit() == old(self).limit(),
            ({
                let n = min(len as int, old(self).limit() - old(self).sent());
                if n == 0 {
                    r is None && final(self).waiting() && final(self).sent() == old(self).sent()
                } else {
                    r matches Some(data) && bytes_view(data).len() == n && final(self).sent() == old(self).sent() + n
                        && forall|i: int| 0 <= i < n ==> #[trigger] bytes_view(data)[i] == payload_byte(old(self).sent() + i)
                }
            }),
    {
        let window = self.max_data - self.offset;
        let len = if len < window { len } else { window };
        if len == 0 {
            self.blocked.block();
            return None;
        }
        let data = payload(self.offset, len as usize);
        self.offset = self.offset + len;
        Some(data)
    }
}

} // verus!

verus! {

/// The chunks waiting to be written to the transport.
#[derive(Debug)]
pub struct WriteBuffer {
    queue: VecDeque<bytes::Bytes>,
    push_interest: bool,
}

impl Default for WriteBuffer {
    fn default() -> (w: Self)
        ensures
            w.contents() == Seq::<u8>::empty(),
            w.chunk_count() == 0,
            !w.interested(),
    {
        WriteBuffer { queue: VecDeque::new(), push_interest: false }
    }
}

impl WriteBuffer {
    /// The bytes waiting to be written, in order.
    pub closed spec fn contents(&self) -> Seq<u8> {
        flatten(self.queue@)
    }

    /// The number of queued chunks.
    pub closed spec fn chunk_count(&self) -> nat {
        self.queue@.len()
    }

    /// The `i`-th queued chunk.
    pub closed spec fn chunk_at(&self, i: int) -> bytes::Bytes {
        self.queue@[i]
    }

    /// Whether a task waits for room in the queue.
    pub closed spec fn interested(&self) -> bool {
        self.push_interest
    }

    /// Whether fewer than `max_queue_len` chunks are queued; when not, a
    /// task is recorded as waiting for room.
    pub fn request_push(&mut self, max_queue_len: usize) -> (can_push: bool)
        ensures
            can_push == (max_queue_len > old(self).chunk_count()),
            final(self).contents() == old(self).contents(),
            final(self).chunk_count() == old(self).chunk_count(),
            final(self).interested() == (old(self).interested() || !can_push),
    {
        let can_push = max_queue_len > self.queue.len();
        self.push_interest = self.push_interest || !can_push;
        can_push
    }

    /// Queues `frame` behind what is queued: its header, then its payload.
    pub fn push(&mut self, frame: frame::Frame)
        ensures
            final(self).contents() == old(self).contents() + frame::header_of(frame) + frame_payload(frame),
            final(self).interested() == old(self).interested(),
            final(self).chunk_count() <= old(self).chunk_count() + 2,
    {
        let mut header: Vec<u8> = Vec::new();
        frame.write_header(&mut header);
        let ghost hv = header@;
        let head = bytes_from_vec(header);
        proof {
            lemma_flatten_push(self.queue@, head);
        }
        self.queue.push_back(head);
        let ghost mid = self.queue@;
        let ghost payload = frame_payload(frame);
        if let Some(data) = frame.body() {
            proof {
                lemma_flatten_push(mid, data);
            }
            self.queue.push_back(data);
        } else {
            assert(payload =~= Seq::<u8>::empty());
        }
        assert(flatten(self.queue@) =~= flatten(old(self).queue@) + hv + payload);
    }

    /// Queues `frame` in front of what is queued.
    pub fn push_priority(&mut self, frame: frame::Frame)
        ensures
            final(self).contents() == frame::header_of(frame) + frame_payload(frame) + old(self).contents(),
            final(self).interested() == old(self).interested(),
            final(self).chunk_count() <= old(self).chunk_count() + 2,
    {
        let mut header: Vec<u8> = Vec::new();
        frame.write_header(&mut header);
        let ghost hv = header@;
        let head = bytes_from_vec(header);
        let ghost payload = frame_payload(frame);
        if let Some(data) = frame.body() {
            proof {
                lemma_flatten_cons(data, self.queue@);
            }
            self.queue.push_front(data);
        } else {
            assert(payload =~= Seq::<u8>::empty());
        }
        proof {
            lemma_flatten_cons(head, self.queue@);
        }
        self.queue.push_front(head);
        assert(flatten(self.queue@) =~= hv + payload + flatten(old(self).queue@));
    }

    /// Whether no chunk is queued.
    pub fn is_empty(&self) -> (b: bool)
        ensures
            b == (self.chunk_count() == 0),
    {
        self.queue.len() == 0
    }

    /// Takes the first chunk.
    pub fn pop_front(&mut self) -> (c: Option<bytes::Bytes>)
        ensures
            final(self).interested() == old(self).interested(),
            old(self).chunk_count() == 0 ==> c is None && final(self).contents() == old(self).contents(),
            old(self).chunk_count() > 0 ==> (c matches Some(chunk) && old(self).contents() == bytes_view(chunk)
                + final(self).contents() && final(self).chunk_count() == old(self).chunk_count() - 1),
    {
        let ghost before = self.queue@;
        let c = self.queue.pop_front();
        proof {
            if before.len() > 0 {
                assert(before.drop_first() =~= self.queue@);
            }
        }
        c
    }

    /// Puts a chunk back in front.
    pub fn push_front(&mut self, chunk: bytes::Bytes)
        ensures
            final(self).contents() == bytes_view(chunk) + old(self).contents(),
            final(self).interested() == old(self).interested(),
            final(self).chunk_count() == old(self).chunk_count() + 1,
    {
        proof {
            lemma_flatten_cons(chunk, self.queue@);
        }
        self.queue.push_front(chunk);
    }

    /// Wakes the task that waits for room, if any.
    pub fn notify(&mut self, cx: &mut Context)
        ensures
            final(self).contents() == old(self).contents(),
            final(self).chunk_count() == old(self).chunk_count(),
            !final(self).interested(),
    {
        if self.push_interest {
            self.push_interest = false;
            wake(cx);
        }
    }

    /// Drops the first `len` queued bytes (all of them when fewer are
    /// queued).
    pub fn advance(&mut self, len: usize)
        ensures
            final(self).contents() == old(self).contents().skip(min(len as int, old(self).contents().len() as int)),
            final(self).interested() == old(self).interested(),
            final(self).chunk_count() <= old(self).chunk_count(),
    {
        let ghost start = self.contents();
        let mut rem = len;
        let ghost mut done: int = 0;
        assert(start.skip(0) =~= start);
        loop
            invariant
                start == old(self).contents(),
                0 <= done <= start.len(),
                self.contents() == start.skip(done),
                self.push_interest == old(self).push_interest,
                self.queue@.len() <= old(self).queue@.len(),
                done + rem == len,
            decreases self.queue@.len(),
        {
            let ghost before = self.queue@;
            match self.queue.pop_front() {
                None => {
                    assert(flatten(self.queue@) =~= Seq::<u8>::empty());
                    assert(start.skip(done).len() == 0);
                    assert(self.contents() =~= start.skip(min(len as int, start.len() as int)));
                    return;
                },
                Some(mut chunk) => {
                    proof {
                        assert(before.drop_first() =~= self.queue@);
                    }
                    let n = bytes_len(&chunk);
                    let next = if rem > n { rem - n } else { 0 };
                    if next > 0 {
                        proof {
                            assert(start.skip(done).skip(n as int) =~= start.skip(done + n));
                            done = done + n;
                        }
                        rem = next;
                        continue;
                    }
                    if n > rem {
                        bytes_advance(&mut chunk, rem);
                        proof {
                            lemma_flatten_cons(chunk, self.queue@);
                        }
                        self.queue.push_front(chunk);
                        proof {
                            assert(flatten(self.queue@) =~= start.skip(done).skip(rem as int));
                            assert(start.skip(done).skip(rem as int) =~= start.skip(done + rem));
                        }
                    } else {
                        proof {
                            assert(start.skip(done).skip(n as int) =~= start.skip(done + n));
                        }
                    }
                    assert(self.contents() =~= start.skip(min(len as int, start.len() as int)));
                    return;
                },
            }
        }
    }

    /// The number of queued chunks.
    pub fn len(&self) -> (n: usize)
        ensures
            n == self.chunk_count(),
    {
        self.queue.len()
    }

    /// The `i`-th queued chunk.
    pub fn chunk(&self, i: usize) -> (c: &bytes::Bytes)
        requires
            i < self.chunk_count(),
        ensures
            *c == self.chunk_at(i as int),
    {
        &self.queue[i]
    }
}

/// The payload of a stream-data frame; nothing for other frames.
pub open spec fn frame_payload(f: frame::Frame) -> Seq<u8> {
    match f {
        frame::Frame::StreamData { data, .. } => bytes_view(data),
        _ => Seq::<u8>::empty(),
    }
}

} // verus!

verus! {

/// The buffer of bytes read from the transport and not yet decoded.
pub type ReadBuffer = crate::vm::ByteVec;

/// The halves of a stream that are still open.
#[derive(Debug)]
pub struct Stream {
    pub rx: Option<ReceiveStream>,
    pub tx: Option<SendStream>,
}

impl Stream {
    /// Both halves, where present, are well formed.
    pub open spec fn wf(&self) -> bool {
        &&& self.rx matches Some(r) ==> r.wf()
        &&& self.tx matches Some(t) ==> t.wf()
    }
}

/// A fresh receiving half that allows the peer `window` bytes.
pub open spec fn fresh_rx(rx: Option<ReceiveStream>, window: u64) -> bool {
    rx matches Some(r) && r.wf() && r.received() == 0 && r.buffered() == 0 && r.window() == window && !r.finished()
}

/// A fresh sending half that may send `limit` bytes.
pub open spec fn fresh_tx(tx: Option<SendStream>, limit: u64) -> bool {
    tx matches Some(t) && t.wf() && t.sent() == 0 && t.limit() == limit
}

/// The state of a multiplexed connection, apart from the transport itself:
/// the streams of both sides, the frames waiting to be written, and the
/// bytes read but not yet dispatched.
#[derive(Debug)]
pub struct Connection {
    rx_open: bool,
    tx_open: bool,
    frame: Option<frame::Frame>,
    read_buf: ReadBuffer,
    decoder: frame::Decoder,
    write_buf: WriteBuffer,
    local_controller: StreamController,
    remote_controller: StreamController,
    local_streams: HashMap<u64, Stream>,
    remote_streams: HashMap<u64, Stream>,
    max_stream_data: Vec<(Owner, u64)>,
    pending_accept: VecDeque<u64>,
    peer_initial_max_stream_data: u64,
    config: Config,
}

impl Connection {
    /// The buffers are consistent and every stream is well formed.
    pub closed spec fn wf(&self) -> bool {
        &&& self.read_buf.wf()
        &&& self.max_stream_data@.no_duplicates()
        &&& self.decoder.wf()
        &&& forall|id: u64| #[trigger] self.local_streams@.contains_key(id) ==> self.local_streams@[id].wf()
        &&& forall|id: u64| #[trigger] self.remote_streams@.contains_key(id) ==> self.remote_streams@[id].wf()
    }

    /// The streams opened by `owner`, by id.
    pub closed spec fn streams(&self, owner: Owner) -> Map<u64, Stream> {
        match owner {
            Owner::Local => self.local_streams@,
            Owner::Remote => self.remote_streams@,
        }
    }

    /// The bytes waiting to be written to the transport.
    pub closed spec fn outgoing(&self) -> Seq<u8> {
        self.write_buf.contents()
    }

    /// The number of chunks waiting to be written.
    pub closed spec fn outgoing_chunks(&self) -> nat {
        self.write_buf.chunk_count()
    }

    /// The bytes read from the transport and not yet decoded.
    pub closed spec fn incoming(&self) -> Seq<u8> {
        self.read_buf@
    }

    /// The ids of the peer's streams waiting to be accepted, oldest first.
    pub closed spec fn accept_queue(&self) -> Seq<u64> {
        self.pending_accept@
    }

    /// The streams whose receive window is to be extended.
    pub closed spec fn credit_queue(&self) -> Seq<(Owner, u64)> {
        self.max_stream_data@
    }

    /// The state of the frame decoder.
    pub closed spec fn decoder_state(&self) -> frame::Decoder {
        self.decoder
    }

    /// No whole frame is left in the bytes read so far.
    pub open spec fn decoding_idle(&self) -> bool {
        self.decoder_state().idle_on(self.incoming())
    }

    /// The frame waiting to be dispatched is stream data that its stream's
    /// receive window, now full, cannot take yet.
    pub open spec fn blocked_on_window(&self) -> bool {
        &&& self.pending_frame() matches Some(frame::Frame::StreamData { id, owner, data })
        &&& bytes_view(data).len() > 0
        &&& self.streams(owner).contains_key(id)
        &&& self.streams(owner)[id].rx matches Some(x)
        &&& x.buffered() == x.window()
    }

    /// No stream is queued for credit twice.
    pub proof fn lemma_credit_queue_distinct(&self)
        requires
            self.wf(),
        ensures
            self.credit_queue().no_duplicates(),
    {
    }

    /// A decoded frame still waiting to be dispatched.
    pub closed spec fn pending_frame(&self) -> Option<frame::Frame> {
        self.frame
    }

    /// A task waits for room in the write queue and is to be woken.
    pub closed spec fn writers_waiting(&self) -> bool {
        self.write_buf.interested()
    }

    pub closed spec fn reading(&self) -> bool {
        self.rx_open
    }

    pub closed spec fn writing(&self) -> bool {
        self.tx_open
    }

    pub closed spec fn limits(&self) -> Config {
        self.config
    }

    pub closed spec fn controller(&self, owner: Owner) -> StreamController {
        match owner {
            Owner::Local => self.local_controller,
            Owner::Remote => self.remote_controller,
        }
    }

    /// The send limit of the streams that the peer opens, or that are
    /// opened towards it.
    pub closed spec fn peer_initial_limit(&self) -> u64 {
        self.peer_initial_max_stream_data
    }

    /// A connection with no stream yet. A stream window other than the
    /// default is announced to the peer first.
    pub fn new(config: Config) -> (c: Self)
        ensures
            c.wf(),
            c.reading(),
            c.writing(),
            c.limits() == config,
            c.streams(Owner::Local) == Map::<u64, Stream>::empty(),
            c.streams(Owner::Remote) == Map::<u64, Stream>::empty(),
            c.outgoing() == if config.stream_window != DEFAULT_STREAM_WINDOW {
                frame::header_of(frame::Frame::InitialMaxStreamData { up_to: config.stream_window })
            } else {
                Seq::<u8>::empty()
            },
            c.incoming() == Seq::<u8>::empty(),
            c.accept_queue() == Seq::<u64>::empty(),
            c.credit_queue() == Seq::<(Owner, u64)>::empty(),
            c.pending_frame() is None,
            c.controller(Owner::Local).allowed() == config.max_streams,
            c.controller(Owner::Local).opened() == 0,
            c.controller(Owner::Remote).allowed() == DEFAULT_MAX_STREAMS,
            c.controller(Owner::Remote).opened() == 0,
            c.peer_initial_limit() == DEFAULT_STREAM_WINDOW,
    {
        let mut write_buf = WriteBuffer::default();
        if config.stream_window != DEFAULT_STREAM_WINDOW {
            write_buf.push(frame::Frame::InitialMaxStreamData { up_to: config.stream_window });
            assert(frame_payload(frame::Frame::InitialMaxStreamData { up_to: config.stream_window }) =~= Seq::<u8>::empty());
            assert(write_buf.contents() =~= frame::header_of(frame::Frame::InitialMaxStreamData { up_to: config.stream_window }));
        }
        let max_streams = config.max_streams;
        Connection {
            rx_open: true,
            tx_open: true,
            frame: None,
            read_buf: ReadBuffer::default(),
            decoder: frame::Decoder::default(),
            write_buf,
            local_controller: StreamController::new(max_streams),
            remote_controller: StreamController::new(DEFAULT_MAX_STREAMS),
            local_streams: HashMap::new(),
            remote_streams: HashMap::new(),
            max_stream_data: Vec::new(),
            pending_accept: VecDeque::new(),
            peer_initial_max_stream_data: DEFAULT_STREAM_WINDOW,
            config,
        }
    }
}

} // verus!

verus! {

/// `m` with the receive window of stream `id` extended by `credits`, when
/// the stream has a receiving half and the window does not overflow.
pub open spec fn credited(m: Map<u64, Stream>, id: u64, credits: u64) -> Option<Map<u64, Stream>> {
    if m.contains_key(id) {
        match m[id].rx {
            Some(x) => if x.window() + credits <= u64::MAX {
                Some(m.insert(id, Stream { rx: Some(x.with_window((x.window() + credits) as u64)), tx: m[id].tx }))
            } else {
                None
            },
            None => None,
        }
    } else {
        None
    }
}

/// The bytes of the frame that tells the peer that the window of stream
/// `id`, opened by `owner`, now ends at `up_to`.
pub open spec fn credit_frame_bytes(owner: Owner, id: u64, up_to: u64) -> Seq<u8> {
    let f = frame::Frame::MaxStreamData { id, owner: flip(owner), up_to };
    frame::header_of(f) + frame_payload(f)
}

/// What crediting the streams of `q` in turn by `window` gives: the local
/// and the remote stream maps, and the frames queued in front, the last
/// one first. A stream without a receiving half, or whose window would
/// overflow, is left as it is and gets no frame.
pub open spec fn credit_all(q: Seq<(Owner, u64)>, local: Map<u64, Stream>, remote: Map<u64, Stream>, window: u64) -> (
    Map<u64, Stream>,
    Map<u64, Stream>,
    Seq<u8>,
)
    decreases q.len(),
{
    if q.len() == 0 {
        (local, remote, Seq::<u8>::empty())
    } else {
        let prev = credit_all(q.drop_last(), local, remote, window);
        let owner = q.last().0;
        let id = q.last().1;
        let m = match owner {
            Owner::Local => prev.0,
            Owner::Remote => prev.1,
        };
        match credited(m, id, window) {
            Some(m2) => {
                let bytes = credit_frame_bytes(owner, id, (m[id].rx->Some_0.window() + window) as u64) + prev.2;
                match owner {
                    Owner::Local => (m2, prev.1, bytes),
                    Owner::Remote => (prev.0, m2, bytes),
                }
            },
            None => prev,
        }
    }
}

/// `after` holds the same streams as `before`, and only stream `id` may
/// differ.
pub open spec fn same_except(before: Map<u64, Stream>, after: Map<u64, Stream>, id: u64) -> bool {
    &&& after.dom() == before.dom()
    &&& forall|k: u64| #[trigger] after.contains_key(k) && k != id ==> after[k] == before[k]
}

/// Every stream of `m` is well formed.
pub open spec fn all_wf(m: Map<u64, Stream>) -> bool {
    forall|id: u64| #[trigger] m.contains_key(id) ==> m[id].wf()
}

/// Sends up to `len` bytes on stream `id` of `streams`.
fn stream_send(streams: &mut HashMap<u64, Stream>, id: u64, len: u64) -> (r: Result<Option<bytes::Bytes>>)
    requires
        all_wf(old(streams)@),
        len <= usize::MAX,
    ensures
        all_wf(final(streams)@),
        !old(streams)@.contains_key(id) ==> r == Err::<Option<bytes::Bytes>, Error>(Error::MissingStream)
            && final(streams)@ == old(streams)@,
        old(streams)@.contains_key(id) && old(streams)@[id].tx is None ==> r == Err::<Option<bytes::Bytes>, Error>(
            Error::MissingTxStream,
        ) && final(streams)@ == old(streams)@,
        old(streams)@.contains_key(id) ==> (old(streams)@[id].tx matches Some(t) ==> {
            let n = min(len as int, t.limit() - t.sent());
            &&& same_except(old(streams)@, final(streams)@, id)
            &&& final(streams)@[id].rx == old(streams)@[id].rx
            &&& final(streams)@[id].tx matches Some(t2) && t2.limit() == t.limit() && t2.sent() == t.sent() + n
            &&& if n == 0 {
                r == Ok::<Option<bytes::Bytes>, Error>(None)
            } else {
                r matches Ok(Some(data)) && bytes_view(data).len() == n
                    && forall|i: int| 0 <= i < n ==> #[trigger] bytes_view(data)[i] == payload_byte(t.sent() + i)
            }
        }),
{
    match streams.remove(&id) {
        None => Err(Error::MissingStream),
        Some(mut stream) => {
            let r = match &mut stream.tx {
                None => Err(Error::MissingTxStream),
                Some(tx) => Ok(tx.send(len)),
            };
            streams.insert(id, stream);
            proof {
                assert(streams@ =~= old(streams)@.insert(id, stream));
                if r is Err {
                    assert(streams@ =~= old(streams)@);
                }
            }
            r
        },
    }
}

/// Receives up to `len` bytes on stream `id` of `streams`, and reports the
/// receive window left afterwards.
fn stream_receive(streams: &mut HashMap<u64, Stream>, id: u64, len: u64) -> (r: Result<Poll<(u64, u64)>>)
    requires
        all_wf(old(streams)@),
    ensures
        all_wf(final(streams)@),
        !old(streams)@.contains_key(id) ==> r == Err::<Poll<(u64, u64)>, Error>(Error::MissingStream)
            && final(streams)@ == old(streams)@,
        old(streams)@.contains_key(id) && old(streams)@[id].rx is None ==> r == Err::<Poll<(u64, u64)>, Error>(
            Error::MissingRxStream,
        ) && final(streams)@ == old(streams)@,
        old(streams)@.contains_key(id) ==> (old(streams)@[id].rx matches Some(x) ==> {
            let n = min(len as int, x.buffered() - x.received());
            &&& same_except(old(streams)@, final(streams)@, id)
            &&& final(streams)@[id].tx == old(streams)@[id].tx
            &&& final(streams)@[id].rx matches Some(y) && y.buffered() == x.buffered() && y.window() == x.window()
                && y.finished() == x.finished()
            &&& if n > 0 {
                r == Ok::<Poll<(u64, u64)>, Error>(Poll::Ready((n as u64, (x.window() - x.received() - n) as u64)))
                    && final(streams)@[id].rx->Some_0.received() == x.received() + n
            } else if x.finished() {
                r == Ok::<Poll<(u64, u64)>, Error>(Poll::Ready((0, (x.window() - x.received()) as u64)))
                    && final(streams)@[id].rx->Some_0.received() == x.received()
            } else {
                r == Ok::<Poll<(u64, u64)>, Error>(Poll::Pending) && final(streams)@[id].rx->Some_0.received() == x.received()
            }
        }),
{
    match streams.remove(&id) {
        None => Err(Error::MissingStream),
        Some(mut stream) => {
            let r = match &mut stream.rx {
                None => Err(Error::MissingRxStream),
                Some(rx) => match rx.receive(len) {
                    Poll::Ready(Ok(n)) => Ok(Poll::Ready((n, rx.receive_window()))),
                    Poll::Ready(Err(e)) => Err(e),
                    Poll::Pending => Ok(Poll::Pending),
                },
            };
            streams.insert(id, stream);
            proof {
                assert(streams@ =~= old(streams)@.insert(id, stream));
                if r is Err {
                    assert(streams@ =~= old(streams)@);
                }
            }
            r
        },
    }
}

impl Connection {
    /// Opens bidirectional stream `id` when the local stream limit allows
    /// one more, and announces it to the peer.
    pub fn poll_open_bidirectional_stream(&mut self, id: u64, cx: &mut Context) -> (r: Poll<Result<()>>)
        requires
            old(self).wf(),
        ensures
            final(self).wf(),
            final(self).streams(Owner::Remote) == old(self).streams(Owner::Remote),
            old(self).controller(Owner::Local).opened() < old(self).controller(Owner::Local).allowed() ==> {
                &&& r == Poll::Ready(Ok::<(), Error>(()))
                &&& final(self).outgoing() == old(self).outgoing() + frame::frame_bytes(
                    frame::SpecFrame::StreamOpen { id, bidirectional: true },
                )
                &&& final(self).streams(Owner::Local).dom() == old(self).streams(Owner::Local).dom().insert(id)
                &&& fresh_rx(final(self).streams(Owner::Local)[id].rx, old(self).limits().stream_window)
                &&& fresh_tx(final(self).streams(Owner::Local)[id].tx, old(self).peer_initial_limit())
                &&& forall|k: u64| #[trigger] old(self).streams(Owner::Local).contains_key(k) && k != id
                    ==> final(self).streams(Owner::Local)[k] == old(self).streams(Owner::Local)[k]
            },
            old(self).controller(Owner::Local).opened() >= old(self).controller(Owner::Local).allowed() ==> {
                &&& r is Pending
                &&& final(self).outgoing() == old(self).outgoing()
                &&& final(self).streams(Owner::Local) == old(self).streams(Owner::Local)
            },
    {
        if let Poll::Pending = self.local_controller.open() {
            return Poll::Pending;
        }
        let f = frame::Frame::StreamOpen { id, bidirectional: true };
        self.write_buf.push(f);
        proof {
            assert(frame_payload(f) =~= Seq::<u8>::empty());
            assert(self.write_buf.contents() =~= old(self).write_buf.contents() + frame::frame_bytes(
                frame::SpecFrame::StreamOpen { id, bidirectional: true },
            ));
        }
        let stream = Stream {
            rx: Some(ReceiveStream::new(self.config.stream_window)),
            tx: Some(SendStream::new(self.peer_initial_max_stream_data)),
        };
        self.local_streams.insert(id, stream);
        Poll::Ready(Ok(()))
    }

    /// Opens unidirectional stream `id` when the local stream limit allows
    /// one more, and announces it to the peer.
    pub fn poll_open_send_stream(&mut self, id: u64, cx: &mut Context) -> (r: Poll<Result<()>>)
        requires
            old(self).wf(),
        ensures
            final(self).wf(),
            final(self).streams(Owner::Remote) == old(self).streams(Owner::Remote),
            old(self).controller(Owner::Local).opened() < old(self).controller(Owner::Local).allowed() ==> {
                &&& r == Poll::Ready(Ok::<(), Error>(()))
                &&& final(self).outgoing() == old(self).outgoing() + frame::frame_bytes(
                    frame::SpecFrame::StreamOpen { id, bidirectional: false },
                )
                &&& final(self).streams(Owner::Local).dom() == old(self).streams(Owner::Local).dom().insert(id)
                &&& final(self).streams(Owner::Local)[id].rx is None
                &&& fresh_tx(final(self).streams(Owner::Local)[id].tx, old(self).peer_initial_limit())
                &&& forall|k: u64| #[trigger] old(self).streams(Owner::Local).contains_key(k) && k != id
                    ==> final(self).streams(Owner::Local)[k] == old(self).streams(Owner::Local)[k]
            },
            old(self).controller(Owner::Local).opened() >= old(self).controller(Owner::Local).allowed() ==> {
                &&& r is Pending
                &&& final(self).outgoing() == old(self).outgoing()
                &&& final(self).streams(Owner::Local) == old(self).streams(Owner::Local)
            },
    {
        if let Poll::Pending = self.local_controller.open() {
            return Poll::Pending;
        }
        let f = frame::Frame::StreamOpen { id, bidirectional: false };
        self.write_buf.push(f);
        proof {
            assert(frame_payload(f) =~= Seq::<u8>::empty());
            assert(self.write_buf.contents() =~= old(self).write_buf.contents() + frame::frame_bytes(
                frame::SpecFrame::StreamOpen { id, bidirectional: false },
            ));
        }
        let stream = Stream { rx: None, tx: Some(SendStream::new(self.peer_initial_max_stream_data)) };
        self.local_streams.insert(id, stream);
        Poll::Ready(Ok(()))
    }

    /// The next stream the peer opened, oldest first; `None` once the
    /// transport is closed for reading.
    pub fn poll_accept_stream(&mut self, cx: &mut Context) -> (r: Poll<Result<Option<u64>>>)
        requires
            old(self).wf(),
        ensures
            final(self).wf(),
            final(self).streams(Owner::Local) == old(self).streams(Owner::Local),
            final(self).streams(Owner::Remote) == old(self).streams(Owner::Remote),
            final(self).outgoing() == old(self).outgoing(),
            !old(self).reading() ==> r == Poll::Ready(Ok::<Option<u64>, Error>(None))
                && final(self).accept_queue() == old(self).accept_queue(),
            old(self).reading() && old(self).accept_queue().len() == 0 ==> r is Pending
                && final(self).accept_queue() == old(self).accept_queue(),
            old(self).reading() && old(self).accept_queue().len() > 0 ==> r == Poll::Ready(
                Ok::<Option<u64>, Error>(Some(old(self).accept_queue()[0])),
            ) && final(self).accept_queue() == old(self).accept_queue().drop_first(),
    {
        if !self.rx_open {
            return Poll::Ready(Ok(None));
        }
        match self.pending_accept.pop_front() {
            Some(id) => Poll::Ready(Ok(Some(id))),
            None => Poll::Pending,
        }
    }
}

} // verus!

verus! {

/// The other side's owner.
fn peer_of(owner: Owner) -> (o: Owner)
    ensures
        o == flip(owner),
{
    core::ops::Not::not(owner)
}

impl Connection {
    /// Sends up to `bytes` payload bytes on stream `id` of `owner`, at most
    /// one frame's worth, as a stream-data frame addressed to the peer's
    /// view of the stream. `Pending` while the write queue is full or the
    /// stream's limit allows nothing.
    pub fn poll_send(&mut self, owner: Owner, id: u64, bytes: u64, cx: &mut Context) -> (r: Poll<Result<u64>>)
        requires
            old(self).wf(),
        ensures
            final(self).wf(),
            final(self).streams(flip(owner)) == old(self).streams(flip(owner)),
            old(self).outgoing_chunks() >= old(self).limits().max_write_queue_len ==> r is Pending
                && final(self).outgoing() == old(self).outgoing() && final(self).streams(owner) == old(self).streams(owner),
            old(self).outgoing_chunks() < old(self).limits().max_write_queue_len ==> {
                let m = old(self).streams(owner);
                let allowed = min(bytes as int, old(self).limits().max_stream_frame_len as int);
                &&& !m.contains_key(id) ==> r == Poll::Ready(Err::<u64, Error>(Error::MissingStream))
                    && final(self).outgoing() == old(self).outgoing() && final(self).streams(owner) == m
                &&& m.contains_key(id) && m[id].tx is None ==> r == Poll::Ready(Err::<u64, Error>(Error::MissingTxStream))
                    && final(self).outgoing() == old(self).outgoing() && final(self).streams(owner) == m
                &&& m.contains_key(id) ==> (m[id].tx matches Some(t) ==> {
                    let n = min(allowed, t.limit() - t.sent());
                    &&& same_except(m, final(self).streams(owner), id)
                    &&& final(self).streams(owner)[id].rx == m[id].rx
                    &&& final(self).streams(owner)[id].tx matches Some(t2) && t2.limit() == t.limit() && t2.sent() == t.sent() + n
                    &&& if n == 0 {
                        r is Pending && final(self).outgoing() == old(self).outgoing()
                    } else {
                        &&& r == Poll::Ready(Ok::<u64, Error>(n as u64))
                        &&& final(self).outgoing().len() == old(self).outgoing().len() + 14 + n
                        &&& final(self).outgoing().subrange(0, old(self).outgoing().len() + 14int) == old(self).outgoing()
                            + frame::data_header(id, flip(owner), n as nat)
                        &&& forall|i: int| 0 <= i < n ==> #[trigger] final(self).outgoing()[old(self).outgoing().len() + 14 + i]
                            == payload_byte(t.sent() + i)
                    }
                })
            },
    {
        if !self.write_buf.request_push(self.config.max_write_queue_len) {
            return Poll::Pending;
        }
        let max_len = self.config.max_stream_frame_len as u64;
        let allowed = if bytes < max_len { bytes } else { max_len };
        let r = match owner {
            Owner::Local => stream_send(&mut self.local_streams, id, allowed),
            Owner::Remote => stream_send(&mut self.remote_streams, id, allowed),
        };
        match r {
            Err(e) => Poll::Ready(Err(e)),
            Ok(None) => Poll::Pending,
            Ok(Some(data)) => {
                let len = bytes_len(&data) as u64;
                let f = frame::Frame::StreamData { id, owner: peer_of(owner), data };
                let ghost before = self.write_buf.contents();
                self.write_buf.push(f);
                proof {
                    let n = bytes_view(data).len();
                    assert(n < 0x1_0000_0000);
                    assert(n % 0x1_0000_0000 == n);
                    crate::endian::lemma_be_bytes_len(id as nat, 8);
                    crate::endian::lemma_be_bytes_len(n, 4);
                    let h = frame::data_header(id, flip(owner), n);
                    assert(h.len() == 14);
                    let out = self.write_buf.contents();
                    assert(out =~= before + h + bytes_view(data));
                    assert(out.subrange(0, before.len() + 14int) =~= before + h);
                    assert forall|i: int| 0 <= i < n implies #[trigger] out[before.len() + 14 + i] == bytes_view(data)[i] by {}
                }
                Poll::Ready(Ok(len))
            },
        }
    }
}

} // verus!

verus! {

/// Removes the sending half of stream `id`, dropping the stream when its
/// receiving half is gone too; whether there was a sending half.
fn stream_finish_tx(streams: &mut HashMap<u64, Stream>, id: u64) -> (had_tx: bool)
    requires
        all_wf(old(streams)@),
    ensures
        all_wf(final(streams)@),
        had_tx == (old(streams)@.contains_key(id) && old(streams)@[id].tx is Some),
        !old(streams)@.contains_key(id) ==> final(streams)@ == old(streams)@,
        old(streams)@.contains_key(id) && old(streams)@[id].rx is None ==> final(streams)@ == old(streams)@.remove(id),
        old(streams)@.contains_key(id) && old(streams)@[id].rx is Some ==> final(streams)@ == old(streams)@.insert(
            id,
            Stream { rx: old(streams)@[id].rx, tx: None },
        ),
{
    match streams.remove(&id) {
        None => false,
        Some(stream) => {
            let had_tx = stream.tx.is_some();
            if stream.rx.is_some() {
                streams.insert(id, Stream { rx: stream.rx, tx: None });
            }
            had_tx
        },
    }
}

/// Removes the receiving half of stream `id`, dropping the stream when its
/// sending half is gone too.
fn stream_finish_rx(streams: &mut HashMap<u64, Stream>, id: u64)
    requires
        all_wf(old(streams)@),
    ensures
        all_wf(final(streams)@),
        !old(streams)@.contains_key(id) ==> final(streams)@ == old(streams)@,
        old(streams)@.contains_key(id) && old(streams)@[id].tx is None ==> final(streams)@ == old(streams)@.remove(id),
        old(streams)@.contains_key(id) && old(streams)@[id].tx is Some ==> final(streams)@ == old(streams)@.insert(
            id,
            Stream { rx: None, tx: old(streams)@[id].tx },
        ),
{
    match streams.remove(&id) {
        None => {},
        Some(stream) => {
            if stream.tx.is_some() {
                streams.insert(id, Stream { rx: None, tx: stream.tx });
            }
        },
    }
}

impl Connection {
    /// Hands up to `bytes` received bytes of stream `id` of `owner` to the
    /// application; once the stream's remaining window falls below half of
    /// the configured window, the stream is queued for more credit.
    pub fn poll_receive(&mut self, owner: Owner, id: u64, bytes: u64, cx: &mut Context) -> (r: Poll<Result<u64>>)
        requires
            old(self).wf(),
        ensures
            final(self).wf(),
            final(self).streams(flip(owner)) == old(self).streams(flip(owner)),
            final(self).outgoing() == old(self).outgoing(),
            ({
                let m = old(self).streams(owner);
                &&& !m.contains_key(id) ==> r == Poll::Ready(Err::<u64, Error>(Error::MissingStream))
                    && final(self).streams(owner) == m
                &&& m.contains_key(id) && m[id].rx is None ==> r == Poll::Ready(Err::<u64, Error>(Error::MissingRxStream))
                    && final(self).streams(owner) == m
                &&& m.contains_key(id) ==> (m[id].rx matches Some(x) ==> {
                    let n = min(bytes as int, x.buffered() - x.received());
                    &&& same_except(m, final(self).streams(owner), id)
                    &&& final(self).streams(owner)[id].tx == m[id].tx
                    &&& final(self).streams(owner)[id].rx matches Some(y) && y.buffered() == x.buffered()
                        && y.window() == x.window() && y.finished() == x.finished()
                    &&& if n > 0 || x.finished() {
                        &&& r == Poll::Ready(Ok::<u64, Error>(if n > 0 { n as u64 } else { 0 }))
                        &&& final(self).streams(owner)[id].rx->Some_0.received() == x.received() + if n > 0 { n } else { 0 }
                        &&& (x.window() - x.received() - if n > 0 { n } else { 0 } < old(self).limits().stream_window / 2)
                            ==> final(self).credit_queue().contains((owner, id))
                    } else {
                        r is Pending && final(self).streams(owner)[id].rx->Some_0.received() == x.received()
                    }
                })
            }),
            forall|e: (Owner, u64)| #[trigger] old(self).credit_queue().contains(e) ==> final(self).credit_queue().contains(e),
    {
        let r = match owner {
            Owner::Local => stream_receive(&mut self.local_streams, id, bytes),
            Owner::Remote => stream_receive(&mut self.remote_streams, id, bytes),
        };
        assert(self.credit_queue() == old(self).credit_queue());
        match r {
            Err(e) => Poll::Ready(Err(e)),
            Ok(Poll::Pending) => Poll::Pending,
            Ok(Poll::Ready((len, window))) => {
                if window < self.config.stream_window / 2 {
                    self.queue_credit(owner, id);
                }
                Poll::Ready(Ok(len))
            },
        }
    }

    /// Queues stream `id` of `owner` for more credit, once.
    fn queue_credit(&mut self, owner: Owner, id: u64)
        ensures
            final(self).credit_queue().contains((owner, id)),
            old(self).credit_queue().no_duplicates() ==> final(self).credit_queue().no_duplicates(),
            forall|e: (Owner, u64)| #[trigger] old(self).credit_queue().contains(e) ==> final(self).credit_queue().contains(e),
            final(self).local_streams == old(self).local_streams,
            final(self).remote_streams == old(self).remote_streams,
            final(self).write_buf == old(self).write_buf,
            final(self).read_buf == old(self).read_buf,
            final(self).decoder == old(self).decoder,
            final(self).config == old(self).config,
            final(self).frame == old(self).frame,
            final(self).pending_accept == old(self).pending_accept,
            final(self).rx_open == old(self).rx_open,
            final(self).tx_open == old(self).tx_open,
            final(self).local_controller == old(self).local_controller,
            final(self).remote_controller == old(self).remote_controller,
            final(self).peer_initial_max_stream_data == old(self).peer_initial_max_stream_data,
    {
        let mut i: usize = 0;
        while i < self.max_stream_data.len()
            invariant
                i <= self.max_stream_data@.len(),
                self.max_stream_data == old(self).max_stream_data,
                forall|j: int| 0 <= j < i ==> self.max_stream_data@[j] != (owner, id),
            decreases self.max_stream_data@.len() - i,
        {
            let (o, k) = self.max_stream_data[i];
            if k == id && o.slot() == owner.slot() {
                proof {
                    assert(o == owner);
                    assert(self.max_stream_data@[i as int] == (owner, id));
                }
                return;
            }
            i = i + 1;
        }
        self.max_stream_data.push((owner, id));
        proof {
            assert(self.max_stream_data@[self.max_stream_data@.len() - 1] == (owner, id));
            assert forall|e: (Owner, u64)| #[trigger] old(self).credit_queue().contains(e) implies self.credit_queue().contains(e) by {
                let j = choose|j: int| 0 <= j < old(self).max_stream_data@.len() && old(self).max_stream_data@[j] == e;
                assert(self.max_stream_data@[j] == e);
            }
        }
    }

    /// Finishes the sending half of stream `id` of `owner`, telling the
    /// peer; the stream is dropped when its receiving half is gone too.
    /// `Pending` while the write queue is full.
    pub fn poll_send_finish(&mut self, owner: Owner, id: u64, cx: &mut Context) -> (r: Poll<Result<()>>)
        requires
            old(self).wf(),
        ensures
            final(self).wf(),
            final(self).streams(flip(owner)) == old(self).streams(flip(owner)),
            old(self).outgoing_chunks() >= old(self).limits().max_write_queue_len ==> r is Pending
                && final(self).outgoing() == old(self).outgoing() && final(self).streams(owner) == old(self).streams(owner),
            old(self).outgoing_chunks() < old(self).limits().max_write_queue_len ==> {
                let m = old(self).streams(owner);
                &&& r == Poll::Ready(Ok::<(), Error>(()))
                &&& !m.contains_key(id) ==> final(self).streams(owner) == m && final(self).outgoing() == old(self).outgoing()
                &&& m.contains_key(id) && m[id].rx is None ==> final(self).streams(owner) == m.remove(id)
                &&& m.contains_key(id) && m[id].rx is Some ==> final(self).streams(owner) == m.insert(id, Stream { rx: m[id].rx, tx: None })
                &&& m.contains_key(id) && m[id].tx is Some ==> final(self).outgoing() == old(self).outgoing() + frame::frame_bytes(
                    frame::SpecFrame::StreamFinish { id, owner: flip(owner) },
                )
                &&& m.contains_key(id) && m[id].tx is None ==> final(self).outgoing() == old(self).outgoing()
            },
    {
        if !self.write_buf.request_push(self.config.max_write_queue_len) {
            return Poll::Pending;
        }
        let had_tx = match owner {
            Owner::Local => stream_finish_tx(&mut self.local_streams, id),
            Owner::Remote => stream_finish_tx(&mut self.remote_streams, id),
        };
        if had_tx {
            let f = frame::Frame::StreamFinish { id, owner: peer_of(owner) };
            self.write_buf.push(f);
            proof {
                assert(frame_payload(f) =~= Seq::<u8>::empty());
                assert(self.write_buf.contents() =~= old(self).write_buf.contents() + frame::frame_bytes(
                    frame::SpecFrame::StreamFinish { id, owner: flip(owner) },
                ));
            }
        }
        Poll::Ready(Ok(()))
    }

    /// Finishes the receiving half of stream `id` of `owner`; the stream is
    /// dropped when its sending half is gone too.
    pub fn poll_receive_finish(&mut self, owner: Owner, id: u64, cx: &mut Context) -> (r: Poll<Result<()>>)
        requires
            old(self).wf(),
        ensures
            final(self).wf(),
            r == Poll::Ready(Ok::<(), Error>(())),
            final(self).outgoing() == old(self).outgoing(),
            final(self).streams(flip(owner)) == old(self).streams(flip(owner)),
            ({
                let m = old(self).streams(owner);
                &&& !m.contains_key(id) ==> final(self).streams(owner) == m
                &&& m.contains_key(id) && m[id].tx is None ==> final(self).streams(owner) == m.remove(id)
                &&& m.contains_key(id) && m[id].tx is Some ==> final(self).streams(owner) == m.insert(id, Stream { rx: None, tx: m[id].tx })
            }),
    {
        match owner {
            Owner::Local => stream_finish_rx(&mut self.local_streams, id),
            Owner::Remote => stream_finish_rx(&mut self.remote_streams, id),
        }
        Poll::Ready(Ok(()))
    }
}

} // verus!

verus! {

/// Buffers the payload `data` that the peer sent on stream `id` of
/// `streams`; what the receive window did not take is returned.
fn stream_buffer(streams: &mut HashMap<u64, Stream>, id: u64, data: bytes::Bytes, cx: &mut Context) -> (r: Result<Option<bytes::Bytes>>)
    requires
        all_wf(old(streams)@),
    ensures
        all_wf(final(streams)@),
        !(old(streams)@.contains_key(id) && old(streams)@[id].rx is Some) ==> r == Ok::<Option<bytes::Bytes>, Error>(None)
            && final(streams)@ == old(streams)@,
        old(streams)@.contains_key(id) ==> (old(streams)@[id].rx matches Some(x) ==> {
            let n = min(bytes_view(data).len() as int, x.window() - x.buffered());
            &&& same_except(old(streams)@, final(streams)@, id)
            &&& final(streams)@[id].tx == old(streams)@[id].tx
            &&& final(streams)@[id].rx matches Some(y) && y.received() == x.received() && y.window() == x.window()
                && y.finished() == x.finished()
            &&& if x.finished() {
                r == Err::<Option<bytes::Bytes>, Error>(Error::StreamFinished) && final(streams)@[id].rx->Some_0.buffered() == x.buffered()
            } else {
                &&& final(streams)@[id].rx->Some_0.buffered() == x.buffered() + n
                &&& if n < bytes_view(data).len() {
                    r matches Ok(Some(rest)) && bytes_view(rest) == bytes_view(data).skip(n)
                } else {
                    r == Ok::<Option<bytes::Bytes>, Error>(None)
                }
            }
        }),
{
    match streams.remove(&id) {
        None => Ok(None),
        Some(mut stream) => {
            let r = match &mut stream.rx {
                None => Ok(None),
                Some(rx) => {
                    let len = bytes_len(&data) as u64;
                    match rx.buffer(len, cx) {
                        Err(e) => Err(e),
                        Ok(n) => {
                            let mut data = data;
                            bytes_advance(&mut data, n as usize);
                            if bytes_len(&data) != 0 {
                                Ok(Some(data))
                            } else {
                                Ok(None)
                            }
                        },
                    }
                },
            };
            streams.insert(id, stream);
            proof {
                assert(streams@ =~= old(streams)@.insert(id, stream));
                if old(streams)@[id].rx is None {
                    assert(streams@ =~= old(streams)@);
                }
            }
            r
        },
    }
}

/// Raises the send limit of stream `id` of `streams` to `up_to`.
fn stream_max_data(streams: &mut HashMap<u64, Stream>, id: u64, up_to: u64, cx: &mut Context)
    requires
        all_wf(old(streams)@),
    ensures
        all_wf(final(streams)@),
        !(old(streams)@.contains_key(id) && old(streams)@[id].tx is Some) ==> final(streams)@ == old(streams)@,
        old(streams)@.contains_key(id) ==> (old(streams)@[id].tx matches Some(t) ==> {
            &&& same_except(old(streams)@, final(streams)@, id)
            &&& final(streams)@[id].rx == old(streams)@[id].rx
            &&& final(streams)@[id].tx matches Some(u) && u.sent() == t.sent()
                && u.limit() == if up_to > t.limit() { up_to } else { t.limit() }
        }),
{
    match streams.remove(&id) {
        None => {},
        Some(mut stream) => {
            match &mut stream.tx {
                None => {},
                Some(tx) => tx.max_data(up_to, cx),
            }
            streams.insert(id, stream);
            proof {
                assert(streams@ =~= old(streams)@.insert(id, stream));
                if old(streams)@[id].tx is None {
                    assert(streams@ =~= old(streams)@);
                }
            }
        },
    }
}

/// Records that the peer finished stream `id` of `streams`; fails when
/// there is no such stream.
fn stream_peer_finish(streams: &mut HashMap<u64, Stream>, id: u64, cx: &mut Context) -> (r: Result<()>)
    requires
        all_wf(old(streams)@),
    ensures
        all_wf(final(streams)@),
        !old(streams)@.contains_key(id) ==> r == Err::<(), Error>(Error::InvalidStream) && final(streams)@ == old(streams)@,
        old(streams)@.contains_key(id) ==> r == Ok::<(), Error>(()) && same_except(old(streams)@, final(streams)@, id)
            && final(streams)@[id].tx == old(streams)@[id].tx,
        old(streams)@.contains_key(id) && old(streams)@[id].rx is None ==> final(streams)@ == old(streams)@,
        old(streams)@.contains_key(id) ==> (old(streams)@[id].rx matches Some(x) ==> (
            final(streams)@[id].rx matches Some(y) && y.finished() && y.received() == x.received()
                && y.buffered() == x.buffered() && y.window() == x.window())),
{
    match streams.remove(&id) {
        None => Err(Error::InvalidStream),
        Some(mut stream) => {
            match &mut stream.rx {
                None => {},
                Some(rx) => rx.finish(cx),
            }
            streams.insert(id, stream);
            proof {
                assert(streams@ =~= old(streams)@.insert(id, stream));
                if old(streams)@[id].rx is None {
                    assert(streams@ =~= old(streams)@);
                }
            }
            Ok(())
        },
    }
}

impl Connection {
    /// Applies the decoded frame waiting to be dispatched. A payload that
    /// the receive window cannot take whole stays pending, as what is left
    /// of it, and the result is `Pending`; with no frame the result is
    /// `Pending` too.
    pub fn dispatch_frame(&mut self, cx: &mut Context) -> (r: Poll<Result<()>>)
        requires
            old(self).wf(),
        ensures
            final(self).wf(),
            final(self).outgoing() == old(self).outgoing(),
            final(self).incoming() == old(self).incoming(),
            final(self).limits() == old(self).limits(),
            match old(self).pending_frame() {
                None => r is Pending && *final(self) == *old(self),
                Some(frame::Frame::StreamOpen { id, bidirectional }) => {
                    let m = old(self).streams(Owner::Remote);
                    &&& r == Poll::Ready(Ok::<(), Error>(()))
                    &&& final(self).pending_frame() is None
                    &&& final(self).streams(Owner::Remote).dom() == m.dom().insert(id)
                    &&& fresh_rx(final(self).streams(Owner::Remote)[id].rx, old(self).limits().stream_window)
                    &&& if bidirectional {
                        fresh_tx(final(self).streams(Owner::Remote)[id].tx, old(self).peer_initial_limit())
                    } else {
                        final(self).streams(Owner::Remote)[id].tx is None
                    }
                    &&& forall|k: u64| #[trigger] m.contains_key(k) && k != id ==> final(self).streams(Owner::Remote)[k] == m[k]
                    &&& final(self).accept_queue() == old(self).accept_queue().push(id)
                    &&& final(self).streams(Owner::Local) == old(self).streams(Owner::Local)
                },
                Some(frame::Frame::StreamData { id, owner, data }) => {
                    let m = old(self).streams(owner);
                    &&& final(self).streams(flip(owner)) == old(self).streams(flip(owner))
                    &&& final(self).accept_queue() == old(self).accept_queue()
                    &&& if m.contains_key(id) && m[id].rx is Some {
                        let x = m[id].rx->Some_0;
                        let n = min(bytes_view(data).len() as int, x.window() - x.buffered());
                        &&& same_except(m, final(self).streams(owner), id)
                        &&& final(self).streams(owner)[id].tx == m[id].tx
                        &&& final(self).streams(owner)[id].rx matches Some(y) && y.received() == x.received()
                            && y.window() == x.window() && y.finished() == x.finished()
                        &&& if x.finished() {
                            r == Poll::Ready(Err::<(), Error>(Error::StreamFinished)) && final(self).pending_frame() is None
                        } else if n < bytes_view(data).len() {
                            &&& r is Pending
                            &&& final(self).streams(owner)[id].rx->Some_0.buffered() == x.buffered() + n
                            &&& final(self).pending_frame() matches Some(frame::Frame::StreamData { id: i, owner: o, data: rest })
                                && i == id && o == owner && bytes_view(rest) == bytes_view(data).skip(n)
                        } else {
                            &&& r == Poll::Ready(Ok::<(), Error>(()))
                            &&& final(self).streams(owner)[id].rx->Some_0.buffered() == x.buffered() + n
                            &&& final(self).pending_frame() is None
                        }
                    } else {
                        r == Poll::Ready(Ok::<(), Error>(())) && final(self).pending_frame() is None
                            && final(self).streams(owner) == m
                    }
                },
                Some(frame::Frame::StreamFinish { id, owner }) => {
                    let m = old(self).streams(owner);
                    &&& final(self).pending_frame() is None
                    &&& final(self).streams(flip(owner)) == old(self).streams(flip(owner))
                    &&& !m.contains_key(id) ==> r == Poll::Ready(Err::<(), Error>(Error::InvalidStream))
                        && final(self).streams(owner) == m
                    &&& m.contains_key(id) ==> r == Poll::Ready(Ok::<(), Error>(())) && same_except(m, final(self).streams(owner), id)
                    &&& m.contains_key(id) ==> (m[id].rx matches Some(x) ==> (
                        final(self).streams(owner)[id].rx matches Some(y) && y.finished() && y.received() == x.received()
                            && y.buffered() == x.buffered() && y.window() == x.window()))
                },
                Some(frame::Frame::MaxStreams { up_to }) => {
                    &&& r == Poll::Ready(Ok::<(), Error>(()))
                    &&& final(self).pending_frame() is None
                    &&& final(self).controller(Owner::Remote).allowed() == up_to
                    &&& final(self).controller(Owner::Remote).opened() == old(self).controller(Owner::Remote).opened()
                    &&& final(self).streams(Owner::Local) == old(self).streams(Owner::Local)
                    &&& final(self).streams(Owner::Remote) == old(self).streams(Owner::Remote)
                },
                Some(frame::Frame::MaxStreamData { id, owner, up_to }) => {
                    let m = old(self).streams(owner);
                    &&& r == Poll::Ready(Ok::<(), Error>(()))
                    &&& final(self).pending_frame() is None
                    &&& final(self).streams(flip(owner)) == old(self).streams(flip(owner))
                    &&& !(m.contains_key(id) && m[id].tx is Some) ==> final(self).streams(owner) == m
                    &&& m.contains_key(id) ==> (m[id].tx matches Some(t) ==> same_except(m, final(self).streams(owner), id))
                    &&& m.contains_key(id) ==> (m[id].tx matches Some(t) ==> (final(self).streams(owner)[id].tx matches Some(u)
                        && u.sent() == t.sent() && u.limit() == if up_to > t.limit() { up_to } else { t.limit() }))
                },
                Some(frame::Frame::InitialMaxStreamData { up_to }) => {
                    &&& r == Poll::Ready(Ok::<(), Error>(()))
                    &&& final(self).pending_frame() is None
                    &&& final(self).peer_initial_limit() == up_to
                    &&& final(self).streams(Owner::Local) == old(self).streams(Owner::Local)
                    &&& final(self).streams(Owner::Remote) == old(self).streams(Owner::Remote)
                },
            },
    {
        match self.frame.take() {
            Some(frame::Frame::StreamOpen { id, bidirectional }) => {
                let mut stream = Stream { rx: Some(ReceiveStream::new(self.config.stream_window)), tx: None };
                if bidirectional {
                    stream.tx = Some(SendStream::new(self.peer_initial_max_stream_data));
                }
                self.remote_streams.insert(id, stream);
                self.pending_accept.push_back(id);
                wake(cx);
            },
            Some(frame::Frame::StreamData { id, owner, data }) => {
                let r = match owner {
                    Owner::Local => stream_buffer(&mut self.local_streams, id, data, cx),
                    Owner::Remote => stream_buffer(&mut self.remote_streams, id, data, cx),
                };
                match r {
                    Err(e) => return Poll::Ready(Err(e)),
                    Ok(Some(rest)) => {
                        self.frame = Some(frame::Frame::StreamData { id, owner, data: rest });
                        return Poll::Pending;
                    },
                    Ok(None) => {},
                }
            },
            Some(frame::Frame::MaxStreams { up_to }) => {
                self.remote_controller.max_streams(up_to, cx);
            },
            Some(frame::Frame::MaxStreamData { id, owner, up_to }) => {
                match owner {
                    Owner::Local => stream_max_data(&mut self.local_streams, id, up_to, cx),
                    Owner::Remote => stream_max_data(&mut self.remote_streams, id, up_to, cx),
                }
            },
            Some(frame::Frame::StreamFinish { id, owner }) => {
                let r = match owner {
                    Owner::Local => stream_peer_finish(&mut self.local_streams, id, cx),
                    Owner::Remote => stream_peer_finish(&mut self.remote_streams, id, cx),
                };
                if let Err(e) = r {
                    return Poll::Ready(Err(e));
                }
            },
            Some(frame::Frame::InitialMaxStreamData { up_to }) => {
                self.peer_initial_max_stream_data = up_to;
            },
            None => return Poll::Pending,
        }
        Poll::Ready(Ok(()))
    }
}

} // verus!

verus! {

impl Connection {
    /// Decodes and dispatches frames from the bytes read so far, until a
    /// frame cannot be dispatched yet or no whole frame is left.
    pub fn flush_read_buffer(&mut self, cx: &mut Context) -> (r: Result<()>)
        requires
            old(self).wf(),
        ensures
            final(self).wf(),
            final(self).outgoing() == old(self).outgoing(),
            final(self).incoming().len() <= old(self).incoming().len(),
            final(self).limits() == old(self).limits(),
            r is Ok ==> (final(self).pending_frame() is None && final(self).decoding_idle())
                || final(self).blocked_on_window(),
            r matches Err(e) ==> e == Error::InvalidFrameTag || e == Error::InvalidOwnerId
                || e == Error::StreamFinished || e == Error::InvalidStream,
            r is Err ==> final(self).pending_frame() is None && (old(self).pending_frame() is Some
                || final(self).incoming().len() < old(self).incoming().len()),
    {
        loop
            invariant
                self.wf(),
                self.write_buf.contents() == old(self).write_buf.contents(),
                self.read_buf@.len() <= old(self).read_buf@.len(),
                self.config == old(self).config,
                self.frame is Some ==> old(self).frame is Some || self.read_buf@.len() < old(self).read_buf@.len(),
            decreases 2 * self.read_buf@.len() + if self.frame is Some { 1int } else { 0int },
        {
            if self.frame.is_none() {
                let ghost d0 = self.decoder;
                let ghost b0 = self.read_buf@;
                match self.decoder.decode(&mut self.read_buf) {
                    Ok(Some(f)) => {
                        self.frame = Some(f);
                    },
                    Ok(None) => {
                        proof {
                            if d0.pending_stream() is None {
                                frame::lemma_decoded_none_idle(d0.held() + b0, self.decoder, self.read_buf@);
                            }
                        }
                    },
                    Err(e) => {
                        proof {
                            frame::lemma_decoded_err_consumes(d0.held(), b0, Err(e), self.decoder.pending_tag(),
                                self.decoder.pending_stream(), self.read_buf@);
                        }
                        return Err(e);
                    },
                }
            }
            assert(self.frame is None ==> self.decoding_idle());
            match self.dispatch_frame(cx) {
                Poll::Ready(Ok(())) => {},
                Poll::Ready(Err(e)) => return Err(e),
                Poll::Pending => return Ok(()),
            }
        }
    }

    /// The number of bytes read and not yet decoded.
    pub fn incoming_len(&self) -> (n: usize)
        requires
            self.wf(),
        ensures
            n == self.incoming().len(),
    {
        self.read_buf.len()
    }

    /// Takes in `chunk`, read from the transport; an empty read means the
    /// transport is closed for reading.
    pub fn on_read(&mut self, chunk: bytes::Bytes)
        requires
            old(self).wf(),
            old(self).incoming().len() + bytes_view(chunk).len() <= usize::MAX,
        ensures
            final(self).wf(),
            final(self).incoming() == old(self).incoming() + bytes_view(chunk),
            final(self).reading() == (old(self).reading() && bytes_view(chunk).len() > 0),
            final(self).outgoing() == old(self).outgoing(),
            final(self).pending_frame() == old(self).pending_frame(),
    {
        if bytes_len(&chunk) == 0 {
            self.rx_open = false;
            assert(old(self).incoming() + bytes_view(chunk) =~= old(self).incoming());
        } else {
            self.read_buf.push(chunk);
        }
    }

    /// Whether more should be read: the transport is open for reading and
    /// no decoded frame waits to be dispatched.
    pub fn wants_read(&self) -> (b: bool)
        ensures
            b == (self.reading() && self.pending_frame() is None),
    {
        self.rx_open && self.frame.is_none()
    }

    /// Extends the receive window of every stream queued for credit by the
    /// configured window, and tells the peer so ahead of anything else
    /// queued. Streams whose receiving half is gone by now are skipped, as
    /// are windows that would overflow.
    pub fn queue_credit_updates(&mut self)
        requires
            old(self).wf(),
        ensures
            final(self).wf(),
            final(self).credit_queue() == Seq::<(Owner, u64)>::empty(),
            final(self).streams(Owner::Local).dom() == old(self).streams(Owner::Local).dom(),
            final(self).streams(Owner::Remote).dom() == old(self).streams(Owner::Remote).dom(),
            final(self).incoming() == old(self).incoming(),
            final(self).pending_frame() == old(self).pending_frame(),
            final(self).limits() == old(self).limits(),
            final(self).outgoing().len() >= old(self).outgoing().len(),
            final(self).outgoing().skip(final(self).outgoing().len() - old(self).outgoing().len())
                == old(self).outgoing(),
            ({
                let c = credit_all(old(self).credit_queue(), old(self).streams(Owner::Local),
                    old(self).streams(Owner::Remote), old(self).limits().stream_window);
                &&& final(self).streams(Owner::Local) == c.0
                &&& final(self).streams(Owner::Remote) == c.1
                &&& final(self).outgoing() == c.2 + old(self).outgoing()
            }),
    {
        let mut i: usize = 0;
        let ghost q = self.max_stream_data@;
        let ghost w = self.config.stream_window;
        proof {
            assert(self.write_buf.contents().skip(0) =~= self.write_buf.contents());
            assert(q.take(0) =~= Seq::<(Owner, u64)>::empty());
            assert(Seq::<u8>::empty() + self.write_buf.contents() =~= self.write_buf.contents());
        }
        while i < self.max_stream_data.len()
            invariant
                q == old(self).max_stream_data@,
                w == old(self).config.stream_window,
                ({
                    let c = credit_all(q.take(i as int), old(self).local_streams@, old(self).remote_streams@, w);
                    &&& self.local_streams@ == c.0
                    &&& self.remote_streams@ == c.1
                    &&& self.write_buf.contents() == c.2 + old(self).write_buf.contents()
                }),
                self.wf(),
                self.write_buf.contents().len() >= old(self).write_buf.contents().len(),
                self.write_buf.contents().skip(self.write_buf.contents().len() - old(self).write_buf.contents().len())
                    == old(self).write_buf.contents(),
                i <= self.max_stream_data@.len(),
                self.max_stream_data == old(self).max_stream_data,
                self.local_streams@.dom() == old(self).local_streams@.dom(),
                self.remote_streams@.dom() == old(self).remote_streams@.dom(),
                self.read_buf == old(self).read_buf,
                self.frame == old(self).frame,
                self.config == old(self).config,
            decreases self.max_stream_data@.len() - i,
        {
            let (owner, id) = self.max_stream_data[i];
            let window = self.config.stream_window;
            let ghost prev = credit_all(q.take(i as int), old(self).local_streams@, old(self).remote_streams@, w);
            proof {
                assert(q.take(i + 1).drop_last() =~= q.take(i as int));
                assert(q.take(i + 1).last() == q[i as int]);
            }
            let credited = match owner {
                Owner::Local => stream_credit(&mut self.local_streams, id, window),
                Owner::Remote => stream_credit(&mut self.remote_streams, id, window),
            };
            if let Some(up_to) = credited {
                let ghost before = self.write_buf.contents();
                let f = frame::Frame::MaxStreamData { id, owner: peer_of(owner), up_to };
                self.write_buf.push_priority(f);
                proof {
                    let x = frame::header_of(f) + frame_payload(f);
                    assert(self.write_buf.contents() == x + before);
                    let n = old(self).write_buf.contents().len();
                    assert(self.write_buf.contents().skip(self.write_buf.contents().len() - n) =~= before.skip(
                        before.len() - n,
                    ));
                    assert(x == credit_frame_bytes(owner, id, up_to));
                    assert(self.write_buf.contents() =~= (x + prev.2) + old(self).write_buf.contents());
                }
            }
            i = i + 1;
        }
        assert(q.take(q.len() as int) =~= q);
        self.max_stream_data = Vec::new();
    }

    /// What writing amounts to once the transport is closed for writing:
    /// done when nothing waits to be written, an error otherwise; `None`
    /// while it is open.
    pub fn closed_write_result(&self) -> (r: Option<Result<()>>)
        ensures
            self.writing() ==> r is None,
            !self.writing() && self.outgoing_chunks() == 0 ==> r == Some(Ok::<(), Error>(())),
            !self.writing() && self.outgoing_chunks() > 0 ==> r == Some(Err::<(), Error>(Error::ClosedWithPendingData)),
    {
        if !self.tx_open {
            if self.write_buf.is_empty() {
                Some(Ok(()))
            } else {
                Some(Err(Error::ClosedWithPendingData))
            }
        } else {
            None
        }
    }

    /// The queue of chunks waiting to be written.
    pub fn write_queue(&self) -> (w: &WriteBuffer)
        ensures
            w.contents() == self.outgoing(),
            w.chunk_count() == self.outgoing_chunks(),
    {
        &self.write_buf
    }

    /// Takes the first chunk waiting to be written.
    pub fn pop_chunk(&mut self) -> (c: Option<bytes::Bytes>)
        requires
            old(self).wf(),
        ensures
            final(self).wf(),
            old(self).outgoing_chunks() == 0 ==> c is None && final(self).outgoing() == old(self).outgoing(),
            old(self).outgoing_chunks() > 0 ==> (c matches Some(chunk) && old(self).outgoing() == bytes_view(chunk)
                + final(self).outgoing()),
            final(self).writing() == old(self).writing(),
    {
        self.write_buf.pop_front()
    }

    /// Puts back a chunk that the transport could not take yet.
    pub fn unpop_chunk(&mut self, chunk: bytes::Bytes)
        requires
            old(self).wf(),
        ensures
            final(self).wf(),
            final(self).outgoing() == bytes_view(chunk) + old(self).outgoing(),
            final(self).writing() == old(self).writing(),
    {
        self.write_buf.push_front(chunk)
    }

    /// Records that the transport took the first `len` bytes of `chunk`
    /// (just popped); the rest goes back in front. A zero-length write means
    /// the transport is closed for writing: that is done when nothing else
    /// waits, and an error otherwise.
    pub fn on_chunk_written(&mut self, chunk: bytes::Bytes, len: usize) -> (r: Option<Result<()>>)
        requires
            old(self).wf(),
            len <= bytes_view(chunk).len(),
        ensures
            final(self).wf(),
            final(self).outgoing() == bytes_view(chunk).skip(len as int) + old(self).outgoing(),
            len > 0 ==> r is None && final(self).writing() == old(self).writing(),
            len == 0 && bytes_view(chunk).len() == 0 && old(self).outgoing_chunks() == 0 ==> r == Some(Ok::<(), Error>(()))
                && !final(self).writing(),
            len == 0 && !(bytes_view(chunk).len() == 0 && old(self).outgoing_chunks() == 0) ==> r == Some(
                Err::<(), Error>(Error::ClosedWithPendingData),
            ),
    {
        let mut chunk = chunk;
        bytes_advance(&mut chunk, len);
        if bytes_len(&chunk) != 0 {
            self.write_buf.push_front(chunk);
        } else {
            assert(bytes_view(chunk) + old(self).outgoing() =~= old(self).outgoing());
        }
        if len == 0 {
            if self.write_buf.is_empty() {
                self.tx_open = false;
                Some(Ok(()))
            } else {
                Some(Err(Error::ClosedWithPendingData))
            }
        } else {
            None
        }
    }

    /// Records that a vectored write took the first `len` queued bytes, and
    /// wakes a task waiting for room.
    pub fn on_written(&mut self, len: usize, cx: &mut Context)
        requires
            old(self).wf(),
        ensures
            final(self).wf(),
            final(self).outgoing() == old(self).outgoing().skip(min(len as int, old(self).outgoing().len() as int)),
    {
        self.write_buf.advance(len);
        self.write_buf.notify(cx);
    }

    /// Wakes a task waiting for room in the write queue.
    pub fn notify_writers(&mut self, cx: &mut Context)
        requires
            old(self).wf(),
        ensures
            final(self).wf(),
            !final(self).writers_waiting(),
            final(self).outgoing() == old(self).outgoing(),
            final(self).outgoing_chunks() == old(self).outgoing_chunks(),
            final(self).incoming() == old(self).incoming(),
            final(self).pending_frame() == old(self).pending_frame(),
            final(self).streams(Owner::Local) == old(self).streams(Owner::Local),
            final(self).streams(Owner::Remote) == old(self).streams(Owner::Remote),
            final(self).reading() == old(self).reading(),
            final(self).writing() == old(self).writing(),
            final(self).limits() == old(self).limits(),
    {
        self.write_buf.notify(cx);
    }
}

/// Extends the receive window of stream `id` of `streams` by `credits`; the
/// new window, or `None` when the stream has no receiving half or the
/// window would overflow.
fn stream_credit(streams: &mut HashMap<u64, Stream>, id: u64, credits: u64) -> (r: Option<u64>)
    requires
        all_wf(old(streams)@),
    ensures
        all_wf(final(streams)@),
        final(streams)@.dom() == old(streams)@.dom(),
        r is Some <==> (old(streams)@.contains_key(id) && (old(streams)@[id].rx matches Some(x)
            && x.window() + credits <= u64::MAX)),
        r is None ==> final(streams)@ == old(streams)@,
        r matches Some(w) ==> old(streams)@.contains_key(id) && (old(streams)@[id].rx matches Some(x)
            && final(streams)@[id].rx matches Some(y) && w == y.window() && y.window() == x.window() + credits
            && y.received() == x.received() && y.buffered() == x.buffered() && y.finished() == x.finished()),
        r matches Some(_) ==> same_except(old(streams)@, final(streams)@, id) && final(streams)@[id].tx == old(streams)@[id].tx,
        r is Some ==> credited(old(streams)@, id, credits) == Some(final(streams)@),
        r is None ==> credited(old(streams)@, id, credits) is None,
{
    match streams.remove(&id) {
        None => None,
        Some(mut stream) => {
            let r = match &mut stream.rx {
                None => None,
                Some(rx) => {
                    let w = rx.receive_window();
                    if rx.window_offset <= u64::MAX - credits {
                        Some(rx.credit(credits))
                    } else {
                        None
                    }
                },
            };
            streams.insert(id, stream);
            proof {
                assert(streams@ =~= old(streams)@.insert(id, stream));
                if r is None {
                    assert(streams@ =~= old(streams)@);
                }
            }
            r
        },
    }
}

} // verus!
