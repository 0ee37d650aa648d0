//! The frames that a controller sends to a duplex benchmark server: control
//! frames that carry one operation, and stream frames that carry data.

use crate::byte_buf::{bytes_from_vec, bytes_view};
use crate::endian::{be_value, pow256};
use crate::vm::server::{op_a, op_b, op_decoded, op_tag, wait_overflows, wait_overflows_at, Op, OP_SIZE};
use crate::vm::ByteVec;
use crate::{Error, Result};
use vstd::prelude::*;

verus! {

/// The tag byte that starts a stream frame.
pub fn stream_tag() -> (b: bytes::Bytes)
    ensures
        bytes_view(b) == seq![1u8],
{
    let b = bytes_from_vec(vec![1u8]);
    assert(bytes_view(b) =~= seq![1u8]);
    b
}

/// The tag byte that announces that a stream is finished.
pub fn finish_tag() -> (b: bytes::Bytes)
    ensures
        bytes_view(b) == seq![2u8],
{
    let b = bytes_from_vec(vec![2u8]);
    assert(bytes_view(b) =~= seq![2u8]);
    b
}

/// The tag byte that announces that a stream is reset.
pub fn reset_tag() -> (b: bytes::Bytes)
    ensures
        bytes_view(b) == seq![3u8],
{
    let b = bytes_from_vec(vec![3u8]);
    assert(bytes_view(b) =~= seq![3u8]);
    b
}

/// The kinds of frame: tag byte 0 for control, 1 for stream data.
#[derive(Clone, Copy, Debug, PartialEq, Eq, Structural)]
pub enum Tag {
    Control,
    Stream,
}

/// The tag byte of `tag`.
pub open spec fn tag_byte(tag: Tag) -> u8 {
    match tag {
        Tag::Control => 0,
        Tag::Stream => 1,
    }
}

/// The tag that byte `b` denotes, if any.
pub open spec fn tag_of(b: u8) -> Option<Tag> {
    if b == 0 {
        Some(Tag::Control)
    } else if b == 1 {
        Some(Tag::Stream)
    } else {
        None
    }
}

/// A decoded frame.
#[derive(Debug)]
pub enum Frame {
    Control { op: Op },
    Stream { id: u64, data: bytes::Bytes },
}

/// How the front of a byte sequence decodes.
pub enum Parsed {
    /// A control frame whose operation is encoded by `bytes` (seventeen
    /// bytes); the frame is `len` bytes long.
    Control { bytes: Seq<u8>, len: nat },
    /// The header of a stream frame with a non-empty payload of `data_len`
    /// bytes; the header is `len` bytes long.
    DataHeader { id: u64, data_len: nat, len: nat },
    /// Not enough bytes for a frame: the first `len` bytes are consumed, and
    /// `tag` is the tag already read, if any.
    Partial { tag: Option<Tag>, len: nat },
    /// An unknown tag byte, after `len` consumed bytes.
    BadTag { len: nat },
}

/// `p` with `n` more bytes consumed in front of it.
pub open spec fn shifted(p: Parsed, n: nat) -> Parsed {
    match p {
        Parsed::Control { bytes, len } => Parsed::Control { bytes, len: len + n },
        Parsed::DataHeader { id, data_len, len } => Parsed::DataHeader { id, data_len, len: len + n },
        Parsed::Partial { tag, len } => Parsed::Partial { tag, len: len + n },
        Parsed::BadTag { len } => Parsed::BadTag { len: len + n },
    }
}

/// The big-endian number held in bytes `a` up to `b` of `s`.
pub open spec fn field(s: Seq<u8>, a: int, b: int) -> nat {
    be_value(s.subrange(a, b))
}

/// How the front of `s` decodes. Stream frames with an empty payload are
/// skipped.
pub open spec fn parse(s: Seq<u8>) -> Parsed
    decreases s.len(),
{
    if s.len() == 0 {
        Parsed::Partial { tag: None, len: 0 }
    } else {
        match tag_of(s[0]) {
            None => Parsed::BadTag { len: 1 },
            Some(Tag::Control) => if s.len() < 1 + OP_SIZE {
                Parsed::Partial { tag: Some(Tag::Control), len: 1 }
            } else {
                Parsed::Control { bytes: s.subrange(1, 18), len: 18 }
            },
            Some(Tag::Stream) => if s.len() < 11 {
                Parsed::Partial { tag: Some(Tag::Stream), len: 1 }
            } else if field(s, 9, 11) == 0 {
                shifted(parse(s.skip(11)), 11)
            } else {
                Parsed::DataHeader { id: field(s, 1, 9) as u64, data_len: field(s, 9, 11), len: 11 }
            },
        }
    }
}

/// Decoding `s` would reach a control frame whose `Wait` duration cannot be
/// represented.
pub open spec fn overflow_ahead(s: Seq<u8>) -> bool
    decreases s.len(),
{
    if s.len() == 0 {
        false
    } else if s[0] == 0 {
        s.len() >= 18 && wait_overflows(s.skip(1))
    } else if s[0] == 1 {
        s.len() >= 11 && field(s, 9, 11) == 0 && overflow_ahead(s.skip(11))
    } else {
        false
    }
}

/// The number of bytes that `p` consumes.
pub open spec fn parsed_len(p: Parsed) -> nat {
    match p {
        Parsed::Control { len, .. } => len,
        Parsed::DataHeader { len, .. } => len,
        Parsed::Partial { len, .. } => len,
        Parsed::BadTag { len } => len,
    }
}

/// The outcome of one decoding step on `eff` (the held tag and the queued
/// bytes) that parses as `p`: `r` is the result, `tag` and `stream` the
/// decoder state after the step and `after` the bytes left queued. A
/// control frame with an unknown operation tag is consumed and yields
/// nothing, and the decoder then expects another control frame.
pub open spec fn decoded(
    p: Parsed,
    eff: Seq<u8>,
    r: Result<Option<Frame>>,
    tag: Option<Tag>,
    stream: Option<(u64, usize)>,
    after: Seq<u8>,
) -> bool {
    match p {
        Parsed::Control { bytes, len } => {
            &&& stream is None
            &&& after == eff.skip(len as int)
            &&& if op_tag(bytes) > 7 {
                r == Ok::<Option<Frame>, Error>(None) && tag == Some(Tag::Control)
            } else {
                &&& r matches Ok(Some(Frame::Control { op })) && op_decoded(Some(op), op_tag(bytes), op_a(bytes), op_b(bytes))
                &&& tag is None
            }
        },
        Parsed::DataHeader { id, data_len, len } => {
            let rest = eff.skip(len as int);
            &&& tag is None
            &&& if rest.len() == 0 {
                &&& r == Ok::<Option<Frame>, Error>(None)
                &&& stream == Some((id, data_len as usize))
                &&& after == rest
            } else {
                &&& r matches Ok(Some(Frame::Stream { id: i, data })) && i == id
                    && 0 < bytes_view(data).len() <= data_len && rest == bytes_view(data) + after
                    && stream == (if bytes_view(data).len() < data_len {
                        Some((id, (data_len - bytes_view(data).len()) as usize))
                    } else {
                        None
                    })
            }
        },
        Parsed::Partial { tag: t, len } => {
            &&& r == Ok::<Option<Frame>, Error>(None)
            &&& tag == t
            &&& stream is None
            &&& after == eff.skip(len as int)
        },
        Parsed::BadTag { len } => {
            &&& r == Err::<Option<Frame>, Error>(Error::InvalidFrameTag)
            &&& tag is None
            &&& stream is None
            &&& after == eff.skip(len as int)
        },
    }
}

proof fn lemma_decoded_shifted(
    p: Parsed,
    eff0: Seq<u8>,
    k: nat,
    r: Result<Option<Frame>>,
    tag: Option<Tag>,
    stream: Option<(u64, usize)>,
    after: Seq<u8>,
)
    requires
        k <= eff0.len(),
        decoded(p, eff0.skip(k as int), r, tag, stream, after),
        parsed_len(p) <= eff0.len() - k,
    ensures
        decoded(shifted(p, k), eff0, r, tag, stream, after),
{
    let n = parsed_len(p);
    assert(eff0.skip(k as int).skip(n as int) =~= eff0.skip((n + k) as int));
}

proof fn lemma_decoded_len(
    p: Parsed,
    eff: Seq<u8>,
    r: Result<Option<Frame>>,
    tag: Option<Tag>,
    stream: Option<(u64, usize)>,
    after: Seq<u8>,
)
    requires
        decoded(p, eff, r, tag, stream, after),
        parsed_len(p) <= eff.len(),
    ensures
        after.len() + parsed_len(p) <= eff.len(),
        r matches Ok(Some(_)) ==> after.len() + parsed_len(p) < eff.len() || p is Control,
{
}

pub proof fn lemma_parse_len(s: Seq<u8>)
    ensures
        parsed_len(parse(s)) <= s.len(),
        s.len() > 0 ==> parsed_len(parse(s)) >= 1,
        parse(s) is Control ==> parsed_len(parse(s)) >= 18,
        parse(s) is DataHeader ==> parsed_len(parse(s)) >= 11,
        parse(s) matches Parsed::DataHeader { data_len, .. } ==> data_len < 0x10000,
    decreases s.len(),
{
    if s.len() >= 11 && tag_of(s[0]) == Some(Tag::Stream) {
        crate::endian::lemma_be_value_bound(s.subrange(9, 11));
        assert(pow256(2) == 0x10000) by {
            reveal_with_fuel(pow256, 3);
        }
    }
    if s.len() >= 11 && tag_of(s[0]) == Some(Tag::Stream) && field(s, 9, 11) == 0 {
        lemma_parse_len(s.skip(11));
    }
}

/// Decoding would reach an unrepresentable wait only through a control
/// frame that `s` holds whole.
proof fn lemma_overflow_control(s: Seq<u8>)
    requires
        overflow_ahead(s),
    ensures
        parse(s) is Control,
    decreases s.len(),
{
    if s[0] == 1 {
        lemma_overflow_control(s.skip(11));
    }
}

/// With nothing decodable in the held tag and `buf`, decoding would not
/// reach an unrepresentable wait.
pub proof fn lemma_idle_no_overflow(d: Decoder, buf: Seq<u8>)
    requires
        d.idle_on(buf),
        d.pending_stream() is None,
    ensures
        !overflow_ahead(d.held() + buf),
{
    if overflow_ahead(d.held() + buf) {
        lemma_overflow_control(d.held() + buf);
    }
}

/// A decoding step that fails consumes at least one byte of `buf`, the
/// bytes behind the held tag byte, if any.
pub proof fn lemma_decoded_err_consumes(
    held: Seq<u8>,
    buf: Seq<u8>,
    r: Result<Option<Frame>>,
    tag: Option<Tag>,
    stream: Option<(u64, usize)>,
    after: Seq<u8>,
)
    requires
        held.len() <= 1,
        held.len() == 1 ==> tag_of(held[0]) is Some,
        r is Err,
        decoded(parse(held + buf), held + buf, r, tag, stream, after),
    ensures
        after.len() < buf.len(),
{
    let s = held + buf;
    lemma_parse_len(s);
    if s.len() >= 11 && tag_of(s[0]) == Some(Tag::Stream) && field(s, 9, 11) == 0 {
        lemma_parse_len(s.skip(11));
    }
}

/// Decodes frames from a byte queue, remembering a frame header or a
/// payload that is only partly there.
#[derive(Debug)]
pub struct Decoder {
    tag: Option<Tag>,
    stream: Option<(u64, usize)>,
}

impl Default for Decoder {
    fn default() -> (d: Self)
        ensures
            d.wf(),
            d.pending_tag() is None,
            d.pending_stream() is None,
    {
        Decoder { tag: None, stream: None }
    }
}

/// What a decoding step does when no tag and no payload is pending.
enum Step {
    Done(Result<Option<Frame>>),
    Skip,
}

impl Decoder {
    /// A pending payload is never empty, and never pending with a tag.
    pub closed spec fn wf(&self) -> bool {
        &&& self.stream matches Some((_, len)) ==> len > 0
        &&& self.stream is Some ==> self.tag is None
    }

    /// The tag read ahead of a frame whose fields have not all arrived.
    pub closed spec fn pending_tag(&self) -> Option<Tag> {
        self.tag
    }

    /// The stream and remaining length of a payload only partly decoded.
    pub closed spec fn pending_stream(&self) -> Option<(u64, usize)> {
        self.stream
    }

    /// The bytes the decoder has consumed but not yet decoded: the pending
    /// tag byte, if any.
    pub open spec fn held(&self) -> Seq<u8> {
        match self.pending_tag() {
            Some(t) => seq![tag_byte(t)],
            None => Seq::<u8>::empty(),
        }
    }

    /// A pending payload is never empty, and never pending with a tag.
    pub proof fn lemma_wf(&self)
        requires
            self.wf(),
        ensures
            self.pending_stream() matches Some((_, n)) ==> n > 0,
            self.pending_stream() is Some ==> self.pending_tag() is None,
    {
    }

    /// Nothing more decodes from `buf` until more bytes arrive: either a
    /// payload waits for its next bytes and `buf` is empty, or the held tag
    /// and `buf` are only the start of a frame.
    pub open spec fn idle_on(&self, buf: Seq<u8>) -> bool {
        match self.pending_stream() {
            Some(_) => buf.len() == 0 && self.pending_tag() is None,
            None => parse(self.held() + buf) == (Parsed::Partial { tag: self.pending_tag(), len: self.held().len() }),
        }
    }

    /// Whether decoding `buf` next would reach an operation that
    /// `Op::decode` cannot represent; `decode` must not be called then.
    pub fn overflow_ahead(&self, buf: &ByteVec) -> (b: bool)
        requires
            self.wf(),
            buf.wf(),
            buf@.len() < usize::MAX,
        ensures
            b == (self.pending_stream() is None && overflow_ahead(self.held() + buf@)),
    {
        if self.stream.is_some() {
            return false;
        }
        let ghost eff = self.held() + buf@;
        let hl: usize = if self.tag.is_some() { 1 } else { 0 };
        let mut pos: usize = 0;
        proof {
            assert(eff.skip(0) =~= eff);
        }
        loop
            invariant
                buf.wf(),
                buf@.len() < usize::MAX,
                self.stream is None,
                eff == self.held() + buf@,
                hl == self.held().len(),
                hl <= 1,
                pos <= eff.len(),
                pos == 0 || pos >= hl,
                overflow_ahead(eff) == overflow_ahead(eff.skip(pos as int)),
            decreases eff.len() - pos,
        {
            let ghost s = eff.skip(pos as int);
            if pos >= hl && pos - hl == buf.len() {
                assert(s.len() == 0);
                return false;
            }
            // the position in `buf` of the byte after the tag
            let base: usize = pos + 1 - hl;
            let t = if pos < hl {
                match self.tag {
                    Some(Tag::Control) => 0u8,
                    _ => 1u8,
                }
            } else {
                buf.get(pos - hl)
            };
            proof {
                assert(s[0] == t);
                assert(s.skip(1) =~= buf@.skip(base as int));
                assert(s.len() == buf@.len() - base + 1);
            }
            if t == 0 {
                if buf.len() - base < 17 {
                    return false;
                }
                let r = wait_overflows_at(buf, base);
                proof {
                    assert(s.len() >= 18);
                    assert(overflow_ahead(s) == wait_overflows(s.skip(1)));
                    assert(r == wait_overflows(buf@.skip(base as int)));
                }
                return r;
            } else if t == 1 {
                if buf.len() - base < 10 {
                    return false;
                }
                let len = buf.peek_be(base + 8, 2);
                proof {
                    assert(buf@.subrange(base + 8, base + 10) =~= s.subrange(9, 11));
                }
                if len != 0 {
                    return false;
                }
                proof {
                    assert(s.skip(11) =~= eff.skip(pos + 11));
                }
                pos = pos + 11;
            } else {
                return false;
            }
        }
    }

    /// Decodes the next frame from `buf`. A payload that was only partly
    /// there continues where it stopped; otherwise the held tag and the
    /// queued bytes decode as `parse` says.
    #[verifier::rlimit(40)]
    pub fn decode(&mut self, buf: &mut ByteVec) -> (r: Result<Option<Frame>>)
        requires
            old(self).wf(),
            old(buf).wf(),
            old(self).pending_stream() is None ==> !overflow_ahead(old(self).held() + old(buf)@),
        ensures
            final(self).wf(),
            final(buf).wf(),
            old(self).pending_stream() matches Some((id, rem)) ==> {
                &&& final(self).pending_tag() is None
                &&& if old(buf)@.len() == 0 {
                    r == Ok::<Option<Frame>, Error>(None) && final(self).pending_stream() == old(self).pending_stream()
                        && final(buf)@ == old(buf)@
                } else {
                    r matches Ok(Some(Frame::Stream { id: i, data })) && i == id
                        && 0 < bytes_view(data).len() <= rem && old(buf)@ == bytes_view(data) + final(buf)@
                        && final(self).pending_stream() == (if bytes_view(data).len() < rem {
                            Some((id, (rem - bytes_view(data).len()) as usize))
                        } else {
                            None
                        })
                }
            },
            old(self).pending_stream() is None ==> decoded(
                parse(old(self).held() + old(buf)@),
                old(self).held() + old(buf)@,
                r,
                final(self).pending_tag(),
                final(self).pending_stream(),
                final(buf)@,
            ),
            r matches Ok(Some(_)) ==> final(buf)@.len() < old(buf)@.len(),
            final(buf)@.len() <= old(buf)@.len(),
    {
        if let Some((id, len)) = self.stream.take() {
            return self.decode_stream(buf, id, len);
        }
        let ghost eff0 = self.held() + buf@;
        let ghost mut k: nat = 0;
        proof {
            assert(eff0.skip(0) =~= eff0);
            lemma_parse_len(eff0);
        }
        loop
            invariant
                self.wf(),
                buf.wf(),
                self.stream is None,
                old(self).stream is None,
                eff0 == old(self).held() + old(buf)@,
                k <= eff0.len(),
                eff0.skip(k as int) == self.held() + buf@,
                parse(eff0) == shifted(parse(self.held() + buf@), k),
                parsed_len(parse(self.held() + buf@)) <= eff0.len() - k,
                overflow_ahead(eff0) == overflow_ahead(self.held() + buf@),
                !overflow_ahead(eff0),
            decreases buf@.len() + if self.tag is Some { 1int } else { 0int },
        {
            let ghost cur = self.held() + buf@;
            let tag = match self.tag.take() {
                Some(t) => {
                    assert(cur[0] == tag_byte(t));
                    assert(cur.skip(1) =~= buf@);
                    t
                },
                None => {
                    assert(cur =~= buf@);
                    if buf.remaining() == 0 {
                        proof {
                            assert(cur.len() == 0);
                            assert(cur.skip(0) =~= buf@);
                            lemma_decoded_shifted(parse(cur), eff0, k, Ok(None), None, None, buf@);
                            lemma_decoded_len(parse(eff0), eff0, Ok(None), None, None, buf@);
                        }
                        return Ok(None);
                    }
                    let b = buf.get_u8();
                    assert(cur.skip(1) =~= buf@);
                    match tag_from_u8(b) {
                        Some(t) => t,
                        None => {
                            proof {
                                lemma_decoded_shifted(parse(cur), eff0, k, Err(Error::InvalidFrameTag), None, None, buf@);
                                lemma_decoded_len(parse(eff0), eff0, Err(Error::InvalidFrameTag), None, None, buf@);
                            }
                            return Err(Error::InvalidFrameTag);
                        },
                    }
                },
            };
            assert(cur[0] == tag_byte(tag));
            assert(tag_of(cur[0]) == Some(tag));
            match self.decode_frame(buf, tag, Ghost(cur)) {
                Step::Done(r) => {
                    proof {
                        lemma_decoded_shifted(parse(cur), eff0, k, r, self.tag, self.stream, buf@);
                        lemma_parse_len(eff0);
                        lemma_decoded_len(parse(eff0), eff0, r, self.tag, self.stream, buf@);
                    }
                    return r;
                },
                Step::Skip => {
                    proof {
                        assert(parse(cur) == shifted(parse(cur.skip(11)), 11));
                        assert(self.held() + buf@ =~= cur.skip(11));
                        assert(eff0.skip((k + 11) as int) =~= cur.skip(11));
                        lemma_parse_len(cur.skip(11));
                        k = k + 11;
                    }
                },
            }
        }
    }

    /// Decodes the frame whose tag `tag` was just read; `cur` is the input
    /// from that tag on.
    fn decode_frame(&mut self, buf: &mut ByteVec, tag: Tag, Ghost(cur): Ghost<Seq<u8>>) -> (step: Step)
        requires
            old(self).tag is None,
            old(self).stream is None,
            old(buf).wf(),
            cur.len() >= 1,
            cur[0] == tag_byte(tag),
            tag_of(cur[0]) == Some(tag),
            cur.skip(1) == old(buf)@,
            !overflow_ahead(cur),
        ensures
            final(self).wf(),
            final(buf).wf(),
            match step {
                Step::Done(r) => decoded(parse(cur), cur, r, final(self).tag, final(self).stream, final(buf)@),
                Step::Skip => {
                    &&& parse(cur) == shifted(parse(cur.skip(11)), 11)
                    &&& overflow_ahead(cur) == overflow_ahead(cur.skip(11))
                    &&& final(buf)@ == cur.skip(11)
                    &&& final(self).tag is None
                    &&& final(self).stream is None
                },
            },
    {
        proof {
            assert(cur.len() == old(buf)@.len() + 1);
        }
        match tag {
            Tag::Control => {
                if buf.remaining() < OP_SIZE {
                    self.tag = Some(tag);
                    proof {
                        assert(cur.skip(1) =~= buf@);
                    }
                    return Step::Done(Ok(None));
                }
                let r = Op::decode(buf);
                proof {
                    assert(cur.subrange(1, 18) =~= old(buf)@.take(17));
                    assert(old(buf)@.take(17).subrange(1, 9) =~= old(buf)@.subrange(1, 9));
                    assert(old(buf)@.take(17).subrange(9, 17) =~= old(buf)@.subrange(9, 17));
                    assert(buf@ =~= cur.skip(18));
                }
                match r {
                    Some(op) => Step::Done(Ok(Some(Frame::Control { op }))),
                    None => {
                        self.tag = Some(tag);
                        Step::Done(Ok(None))
                    },
                }
            },
            Tag::Stream => {
                if buf.remaining() < 10 {
                    self.tag = Some(tag);
                    proof {
                        assert(cur.skip(1) =~= buf@);
                    }
                    return Step::Done(Ok(None));
                }
                let id = buf.get_be(8);
                proof {
                    assert(old(buf)@.take(8) =~= cur.subrange(1, 9));
                }
                let ghost after_id = buf@;
                let len = buf.get_be(2);
                proof {
                    assert(after_id.take(2) =~= cur.subrange(9, 11));
                    assert(buf@ =~= cur.skip(11));
                    crate::endian::lemma_be_value_bound(cur.subrange(9, 11));
                    assert(pow256(2) == 0x1_0000) by {
                        reveal_with_fuel(pow256, 3);
                    }
                }
                if len == 0 {
                    return Step::Skip;
                }
                let r = self.decode_stream(buf, id, len as usize);
                Step::Done(r)
            },
        }
    }

    /// Takes the payload of stream `id`, of which `len` bytes remain, from
    /// the first chunk of `buf`.
    fn decode_stream(&mut self, buf: &mut ByteVec, id: u64, len: usize) -> (r: Result<Option<Frame>>)
        requires
            len > 0,
            old(self).tag is None,
            old(buf).wf(),
        ensures
            final(self).wf(),
            final(buf).wf(),
            final(self).tag is None,
            if old(buf)@.len() == 0 {
                r == Ok::<Option<Frame>, Error>(None) && final(self).stream == Some((id, len))
                    && final(buf)@ == old(buf)@
            } else {
                r matches Ok(Some(Frame::Stream { id: i, data })) && i == id
                    && 0 < bytes_view(data).len() <= len && old(buf)@ == bytes_view(data) + final(buf)@
                    && final(self).stream == (if bytes_view(data).len() < len {
                        Some((id, (len - bytes_view(data).len()) as usize))
                    } else {
                        None
                    })
            },
    {
        proof {
            buf.lemma_front_len();
        }
        let chunk_len = buf.chunk().len();
        if chunk_len == 0 {
            self.stream = Some((id, len));
            return Ok(None);
        }
        let ghost before = buf@;
        let take = if chunk_len >= len { len } else { chunk_len };
        let data = buf.copy_to_bytes(take);
        self.stream = if take < len { Some((id, len - take)) } else { None };
        proof {
            assert(before =~= bytes_view(data) + buf@);
        }
        Ok(Some(Frame::Stream { id, data }))
    }
}

fn tag_from_u8(b: u8) -> (t: Option<Tag>)
    ensures
        t == tag_of(b),
{
    match b {
        0 => Some(Tag::Control),
        1 => Some(Tag::Stream),
        _ => None,
    }
}

} // verus!

verus! {

/// A control tag followed by an encoded operation decodes as a control
/// frame carrying those seventeen bytes, whatever follows.
pub proof fn lemma_parse_control(op: Seq<u8>, rest: Seq<u8>)
    requires
        op.len() == OP_SIZE,
    ensures
        parse(seq![0u8] + op + rest) == (Parsed::Control { bytes: op, len: 18 }),
{
    let s = seq![0u8] + op + rest;
    assert(s[0] == 0u8);
    assert(s.subrange(1, 18) =~= op);
}

} // verus!
