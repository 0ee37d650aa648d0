//! The frames that multiplex streams over one byte transport, and their
//! encoding: a tag byte, big-endian fields, and for stream data the payload.

use crate::byte_buf::{bytes_len, bytes_view};
use crate::connection::Owner;
use crate::endian::{
    be_bytes, be_encode, be_value, lemma_be_bytes_len, lemma_be_roundtrip, lemma_pow256_positive,
    pow256,
};
use crate::vm::ByteVec;
use crate::{Error, Result};
use vstd::prelude::*;

verus! {

/// The kinds of frame, in the order of their tag bytes 0 to 5.
#[derive(Clone, Copy, Debug, PartialEq, Eq, Structural)]
pub enum Tag {
    StreamOpen,
    StreamData,
    StreamFinish,
    MaxStreams,
    MaxStreamData,
    InitialMaxStreamData,
}

/// The tag byte of `tag`.
pub open spec fn tag_byte(tag: Tag) -> u8 {
    match tag {
        Tag::StreamOpen => 0,
        Tag::StreamData => 1,
        Tag::StreamFinish => 2,
        Tag::MaxStreams => 3,
        Tag::MaxStreamData => 4,
        Tag::InitialMaxStreamData => 5,
    }
}

/// The tag that byte `b` denotes, if any.
pub open spec fn tag_of(b: u8) -> Option<Tag> {
    if b == 0 {
        Some(Tag::StreamOpen)
    } else if b == 1 {
        Some(Tag::StreamData)
    } else if b == 2 {
        Some(Tag::StreamFinish)
    } else if b == 3 {
        Some(Tag::MaxStreams)
    } else if b == 4 {
        Some(Tag::MaxStreamData)
    } else if b == 5 {
        Some(Tag::InitialMaxStreamData)
    } else {
        None
    }
}

fn tag_from_u8(b: u8) -> (t: Option<Tag>)
    ensures
        t == tag_of(b),
{
    match b {
        0 => Some(Tag::StreamOpen),
        1 => Some(Tag::StreamData),
        2 => Some(Tag::StreamFinish),
        3 => Some(Tag::MaxStreams),
        4 => Some(Tag::MaxStreamData),
        5 => Some(Tag::InitialMaxStreamData),
        _ => None,
    }
}

/// The byte that encodes `owner`.
pub open spec fn owner_byte(owner: Owner) -> u8 {
    match owner {
        Owner::Local => 0,
        Owner::Remote => 1,
    }
}

/// The owner that byte `b` denotes, if any.
pub open spec fn owner_of(b: u8) -> Option<Owner> {
    if b == 0 {
        Some(Owner::Local)
    } else if b == 1 {
        Some(Owner::Remote)
    } else {
        None
    }
}

/// The number of bytes that follow the tag of a frame with tag `tag`,
/// before any stream payload.
pub open spec fn needed(tag: Tag) -> nat {
    match tag {
        Tag::StreamOpen => 9,
        Tag::StreamData => 13,
        Tag::StreamFinish => 9,
        Tag::MaxStreams => 8,
        Tag::MaxStreamData => 17,
        Tag::InitialMaxStreamData => 8,
    }
}

/// A frame.
#[derive(Debug)]
pub enum Frame {
    StreamOpen { id: u64, bidirectional: bool },
    StreamData { id: u64, owner: Owner, data: bytes::Bytes },
    StreamFinish { id: u64, owner: Owner },
    MaxStreams { up_to: u64 },
    MaxStreamData { id: u64, owner: Owner, up_to: u64 },
    InitialMaxStreamData { up_to: u64 },
}

/// A frame that carries no payload.
pub enum SpecFrame {
    StreamOpen { id: u64, bidirectional: bool },
    StreamFinish { id: u64, owner: Owner },
    MaxStreams { up_to: u64 },
    MaxStreamData { id: u64, owner: Owner, up_to: u64 },
    InitialMaxStreamData { up_to: u64 },
}

/// The frame `f` stands for, when it carries no payload.
pub open spec fn frame_matches(f: Frame, s: SpecFrame) -> bool {
    match (f, s) {
        (Frame::StreamOpen { id, bidirectional }, SpecFrame::StreamOpen { id: i, bidirectional: b }) => id == i && bidirectional == b,
        (Frame::StreamFinish { id, owner }, SpecFrame::StreamFinish { id: i, owner: o }) => id == i && owner == o,
        (Frame::MaxStreams { up_to }, SpecFrame::MaxStreams { up_to: u }) => up_to == u,
        (Frame::MaxStreamData { id, owner, up_to }, SpecFrame::MaxStreamData { id: i, owner: o, up_to: u }) => id == i && owner == o && up_to == u,
        (Frame::InitialMaxStreamData { up_to }, SpecFrame::InitialMaxStreamData { up_to: u }) => up_to == u,
        _ => false,
    }
}

/// The encoding of a frame that carries no payload.
pub open spec fn frame_bytes(f: SpecFrame) -> Seq<u8> {
    match f {
        SpecFrame::StreamOpen { id, bidirectional } => seq![0u8] + be_bytes(id as nat, 8) + seq![if bidirectional { 1u8 } else { 0u8 }],
        SpecFrame::StreamFinish { id, owner } => seq![2u8] + be_bytes(id as nat, 8) + seq![owner_byte(owner)],
        SpecFrame::MaxStreams { up_to } => seq![3u8] + be_bytes(up_to as nat, 8),
        SpecFrame::MaxStreamData { id, owner, up_to } => seq![4u8] + be_bytes(id as nat, 8) + seq![owner_byte(owner)] + be_bytes(up_to as nat, 8),
        SpecFrame::InitialMaxStreamData { up_to } => seq![5u8] + be_bytes(up_to as nat, 8),
    }
}

/// The header of a stream-data frame whose payload is `len` bytes long.
pub open spec fn data_header(id: u64, owner: Owner, len: nat) -> Seq<u8> {
    seq![1u8] + be_bytes(id as nat, 8) + seq![owner_byte(owner)] + be_bytes(len, 4)
}

/// The header that `write_header` writes for `f`: for stream data, the
/// payload length is taken modulo 2^32.
pub open spec fn header_of(f: Frame) -> Seq<u8> {
    match f {
        Frame::StreamOpen { id, bidirectional } => frame_bytes(SpecFrame::StreamOpen { id, bidirectional }),
        Frame::StreamData { id, owner, data } => data_header(id, owner, bytes_view(data).len() % 0x1_0000_0000),
        Frame::StreamFinish { id, owner } => frame_bytes(SpecFrame::StreamFinish { id, owner }),
        Frame::MaxStreams { up_to } => frame_bytes(SpecFrame::MaxStreams { up_to }),
        Frame::MaxStreamData { id, owner, up_to } => frame_bytes(SpecFrame::MaxStreamData { id, owner, up_to }),
        Frame::InitialMaxStreamData { up_to } => frame_bytes(SpecFrame::InitialMaxStreamData { up_to }),
    }
}

/// How the front of a byte sequence decodes.
pub enum Parsed {
    /// A frame without payload, `len` bytes long.
    Frame { frame: SpecFrame, len: nat },
    /// The header of a stream-data frame with a non-empty payload of
    /// `data_len` bytes; the header is `len` bytes long.
    DataHeader { id: u64, owner: Owner, data_len: nat, len: nat },
    /// Not enough bytes for a frame: the first `len` bytes are consumed, and
    /// `tag` is the tag already read, if any.
    Partial { tag: Option<Tag>, len: nat },
    /// An unknown tag byte, after `len` consumed bytes.
    BadTag { len: nat },
    /// An owner byte other than 0 or 1, after `len` consumed bytes.
    BadOwner { len: nat },
}

/// `p` with `n` more bytes consumed in front of it.
pub open spec fn shifted(p: Parsed, n: nat) -> Parsed {
    match p {
        Parsed::Frame { frame, len } => Parsed::Frame { frame, len: len + n },
        Parsed::DataHeader { id, owner, data_len, len } => Parsed::DataHeader { id, owner, data_len, len: len + n },
        Parsed::Partial { tag, len } => Parsed::Partial { tag, len: len + n },
        Parsed::BadTag { len } => Parsed::BadTag { len: len + n },
        Parsed::BadOwner { len } => Parsed::BadOwner { len: len + n },
    }
}

/// The big-endian number held in bytes `a` up to `b` of `s`.
pub open spec fn field(s: Seq<u8>, a: int, b: int) -> nat {
    be_value(s.subrange(a, b))
}

/// How the front of `s` decodes. Stream-data frames with an empty payload
/// are skipped.
pub open spec fn parse(s: Seq<u8>) -> Parsed
    decreases s.len(),
{
    if s.len() == 0 {
        Parsed::Partial { tag: None, len: 0 }
    } else {
        match tag_of(s[0]) {
            None => Parsed::BadTag { len: 1 },
            Some(tag) => if s.len() < 1 + needed(tag) {
                Parsed::Partial { tag: Some(tag), len: 1 }
            } else {
                match tag {
                    Tag::StreamOpen => Parsed::Frame {
                        frame: SpecFrame::StreamOpen { id: field(s, 1, 9) as u64, bidirectional: s[9] != 0 },
                        len: 10,
                    },
                    Tag::StreamData => match owner_of(s[9]) {
                        None => Parsed::BadOwner { len: 10 },
                        Some(owner) => if field(s, 10, 14) == 0 {
                            shifted(parse(s.skip(14)), 14)
                        } else {
                            Parsed::DataHeader { id: field(s, 1, 9) as u64, owner, data_len: field(s, 10, 14), len: 14 }
                        },
                    },
                    Tag::StreamFinish => match owner_of(s[9]) {
                        None => Parsed::BadOwner { len: 10 },
                        Some(owner) => Parsed::Frame { frame: SpecFrame::StreamFinish { id: field(s, 1, 9) as u64, owner }, len: 10 },
                    },
                    Tag::MaxStreams => Parsed::Frame { frame: SpecFrame::MaxStreams { up_to: field(s, 1, 9) as u64 }, len: 9 },
                    Tag::MaxStreamData => match owner_of(s[9]) {
                        None => Parsed::BadOwner { len: 10 },
                        Some(owner) => Parsed::Frame {
                            frame: SpecFrame::MaxStreamData { id: field(s, 1, 9) as u64, owner, up_to: field(s, 10, 18) as u64 },
                            len: 18,
                        },
                    },
                    Tag::InitialMaxStreamData => Parsed::Frame {
                        frame: SpecFrame::InitialMaxStreamData { up_to: field(s, 1, 9) as u64 },
                        len: 9,
                    },
                }
            },
        }
    }
}

} // verus!

verus! {

/// `pow256(8)` is 2^64, so every `u64` fits in eight bytes.
pub proof fn lemma_u64_fits(v: u64)
    ensures
        (v as nat) < pow256(8),
        be_value(be_bytes(v as nat, 8)) == v,
        be_bytes(v as nat, 8).len() == 8,
{
    assert(pow256(8) == 0x1_0000_0000_0000_0000) by {
        reveal_with_fuel(pow256, 9);
    }
    lemma_be_roundtrip(v as nat, 8);
    lemma_be_bytes_len(v as nat, 8);
}

/// Decoding the encoding of a frame without payload gives the frame back,
/// whatever follows it.
pub proof fn lemma_parse_frame_bytes(f: SpecFrame, rest: Seq<u8>)
    ensures
        parse(frame_bytes(f) + rest) == (Parsed::Frame { frame: f, len: frame_bytes(f).len() }),
{
    let s = frame_bytes(f) + rest;
    match f {
        SpecFrame::StreamOpen { id, bidirectional } => {
            lemma_u64_fits(id);
            assert(s.subrange(1, 9) =~= be_bytes(id as nat, 8));
            assert(s[0] == 0u8);
            assert(s[9] == if bidirectional { 1u8 } else { 0u8 });
        },
        SpecFrame::StreamFinish { id, owner } => {
            lemma_u64_fits(id);
            assert(s.subrange(1, 9) =~= be_bytes(id as nat, 8));
            assert(s[0] == 2u8);
            assert(s[9] == owner_byte(owner));
        },
        SpecFrame::MaxStreams { up_to } => {
            lemma_u64_fits(up_to);
            assert(s.subrange(1, 9) =~= be_bytes(up_to as nat, 8));
            assert(s[0] == 3u8);
        },
        SpecFrame::MaxStreamData { id, owner, up_to } => {
            lemma_u64_fits(id);
            lemma_u64_fits(up_to);
            assert(s.subrange(1, 9) =~= be_bytes(id as nat, 8));
            assert(s.subrange(10, 18) =~= be_bytes(up_to as nat, 8));
            assert(s[0] == 4u8);
            assert(s[9] == owner_byte(owner));
        },
        SpecFrame::InitialMaxStreamData { up_to } => {
            lemma_u64_fits(up_to);
            assert(s.subrange(1, 9) =~= be_bytes(up_to as nat, 8));
            assert(s[0] == 5u8);
        },
    }
}

/// Decoding the header of a stream-data frame with a non-empty payload
/// gives the header back, whatever follows it.
pub proof fn lemma_parse_data_header(id: u64, owner: Owner, len: nat, rest: Seq<u8>)
    requires
        0 < len < 0x1_0000_0000,
    ensures
        parse(data_header(id, owner, len) + rest) == (Parsed::DataHeader { id, owner, data_len: len, len: 14 }),
{
    let s = data_header(id, owner, len) + rest;
    lemma_u64_fits(id);
    assert(pow256(4) == 0x1_0000_0000) by {
        reveal_with_fuel(pow256, 5);
    }
    lemma_be_roundtrip(len, 4);
    lemma_be_bytes_len(len, 4);
    assert(s.subrange(1, 9) =~= be_bytes(id as nat, 8));
    assert(s.subrange(10, 14) =~= be_bytes(len, 4));
    assert(s[0] == 1u8);
    assert(s[9] == owner_byte(owner));
}

impl Frame {
    /// Appends the header of the frame to `buf`; for stream data, the
    /// payload is not written.
    pub fn write_header(&self, buf: &mut Vec<u8>)
        ensures
            final(buf)@ == old(buf)@ + header_of(*self),
    {
        match self {
            Frame::StreamOpen { id, bidirectional } => {
                buf.push(0u8);
                be_encode(*id, 8, buf);
                buf.push(if *bidirectional { 1u8 } else { 0u8 });
            },
            Frame::StreamData { id, owner, data } => {
                buf.push(1u8);
                be_encode(*id, 8, buf);
                buf.push(owner_to_u8(*owner));
                let len = (bytes_len(data) as u64) % 0x1_0000_0000;
                be_encode(len, 4, buf);
            },
            Frame::StreamFinish { id, owner } => {
                buf.push(2u8);
                be_encode(*id, 8, buf);
                buf.push(owner_to_u8(*owner));
            },
            Frame::MaxStreams { up_to } => {
                buf.push(3u8);
                be_encode(*up_to, 8, buf);
            },
            Frame::MaxStreamData { id, owner, up_to } => {
                buf.push(4u8);
                be_encode(*id, 8, buf);
                buf.push(owner_to_u8(*owner));
                be_encode(*up_to, 8, buf);
            },
            Frame::InitialMaxStreamData { up_to } => {
                buf.push(5u8);
                be_encode(*up_to, 8, buf);
            },
        }
        proof {
            assert(final(buf)@ =~= old(buf)@ + header_of(*self));
        }
    }

    /// The payload of a stream-data frame.
    pub fn body(self) -> (r: Option<bytes::Bytes>)
        ensures
            match self {
                Frame::StreamData { data, .. } => r == Some(data),
                _ => r is None,
            },
    {
        if let Frame::StreamData { data, .. } = self {
            Some(data)
        } else {
            None
        }
    }
}

fn owner_to_u8(owner: Owner) -> (b: u8)
    ensures
        b == owner_byte(owner),
{
    match owner {
        Owner::Local => 0,
        Owner::Remote => 1,
    }
}

} // verus!

verus! {

/// What a decoding step returned, given how the input decodes: `p` is the
/// parse of the input `eff` (the pending tag, if any, followed by the queued
/// bytes); `r` is the result, `tag` and `stream` the decoder state after
/// the step and `after` the bytes left queued.
pub open spec fn decoded(
    p: Parsed,
    eff: Seq<u8>,
    r: Result<Option<Frame>>,
    tag: Option<Tag>,
    stream: Option<(u64, Owner, usize)>,
    after: Seq<u8>,
) -> bool {
    match p {
        Parsed::Frame { frame, len } => {
            &&& r matches Ok(Some(f)) && frame_matches(f, frame)
            &&& tag is None
            &&& stream is None
            &&& after == eff.skip(len as int)
        },
        Parsed::DataHeader { id, owner, data_len, len } => {
            let rest = eff.skip(len as int);
            &&& tag is None
            &&& if rest.len() == 0 {
                &&& r == Ok::<Option<Frame>, Error>(None)
                &&& stream == Some((id, owner, data_len as usize))
                &&& after == rest
            } else {
                &&& r matches Ok(Some(Frame::StreamData { id: i, owner: o, data })) && i == id && o == owner
                    && 0 < bytes_view(data).len() <= data_len && rest == bytes_view(data) + after
                    && stream == (if bytes_view(data).len() < data_len {
                        Some((id, owner, (data_len - bytes_view(data).len()) as usize))
                    } else {
                        None
                    })
            }
        },
        Parsed::Partial { tag: t, len } => {
            &&& r == Ok::<Option<Frame>, Error>(None)
            &&& tag == t
            &&& stream is None
            &&& after == eff.skip(len as int)
        },
        Parsed::BadTag { len } => {
            &&& r == Err::<Option<Frame>, Error>(Error::InvalidFrameTag)
            &&& tag is None
            &&& stream is None
            &&& after == eff.skip(len as int)
        },
        Parsed::BadOwner { len } => {
            &&& r == Err::<Option<Frame>, Error>(Error::InvalidOwnerId)
            &&& tag is None
            &&& stream is None
            &&& after == eff.skip(len as int)
        },
    }
}

/// The length that a parse outcome consumes.
pub open spec fn parsed_len(p: Parsed) -> nat {
    match p {
        Parsed::Frame { len, .. } => len,
        Parsed::DataHeader { len, .. } => len,
        Parsed::Partial { len, .. } => len,
        Parsed::BadTag { len } => len,
        Parsed::BadOwner { len } => len,
    }
}

proof fn lemma_decoded_shifted(
    p: Parsed,
    eff0: Seq<u8>,
    k: nat,
    r: Result<Option<Frame>>,
    tag: Option<Tag>,
    stream: Option<(u64, Owner, usize)>,
    after: Seq<u8>,
)
    requires
        k <= eff0.len(),
        decoded(p, eff0.skip(k as int), r, tag, stream, after),
        parsed_len(p) <= eff0.len() - k,
    ensures
        decoded(shifted(p, k), eff0, r, tag, stream, after),
{
    let n = parsed_len(p);
    assert(eff0.skip(k as int).skip(n as int) =~= eff0.skip((n + k) as int));
}

proof fn lemma_decoded_progress(
    p: Parsed,
    eff: Seq<u8>,
    r: Result<Option<Frame>>,
    tag: Option<Tag>,
    stream: Option<(u64, Owner, usize)>,
    after: Seq<u8>,
)
    requires
        decoded(p, eff, r, tag, stream, after),
        parsed_len(p) <= eff.len(),
        p is Frame ==> parsed_len(p) >= 9,
        p is DataHeader ==> parsed_len(p) >= 14,
    ensures
        r matches Ok(Some(_)) ==> after.len() + 9 <= eff.len(),
{
}

proof fn lemma_decoded_len(
    p: Parsed,
    eff: Seq<u8>,
    r: Result<Option<Frame>>,
    tag: Option<Tag>,
    stream: Option<(u64, Owner, usize)>,
    after: Seq<u8>,
)
    requires
        decoded(p, eff, r, tag, stream, after),
        parsed_len(p) <= eff.len(),
    ensures
        after.len() + parsed_len(p) <= eff.len(),
{
}

proof fn lemma_parse_len(s: Seq<u8>)
    ensures
        parsed_len(parse(s)) <= s.len(),
        s.len() > 0 ==> parsed_len(parse(s)) >= 1,
        parse(s) is Frame ==> parsed_len(parse(s)) >= 9,
        parse(s) is DataHeader ==> parsed_len(parse(s)) >= 14,
    decreases s.len(),
{
    if s.len() >= 14 && tag_of(s[0]) == Some(Tag::StreamData) && owner_of(s[9]) is Some && field(s, 10, 14) == 0 {
        lemma_parse_len(s.skip(14));
    }
}

/// A parse that stops without a tag has consumed everything.
proof fn lemma_partial_untagged(s: Seq<u8>, len: nat)
    requires
        parse(s) == (Parsed::Partial { tag: None, len }),
    ensures
        len == s.len(),
    decreases s.len(),
{
    if s.len() >= 14 && tag_of(s[0]) == Some(Tag::StreamData) && owner_of(s[9]) is Some && field(s, 10, 14) == 0 {
        lemma_partial_untagged(s.skip(14), (len - 14) as nat);
    }
}

/// A parse that stops after reading tag `t` stopped right behind that tag
/// byte, and what follows the byte is too short for the frame.
proof fn lemma_partial_tagged(s: Seq<u8>, t: Tag, len: nat)
    requires
        parse(s) == (Parsed::Partial { tag: Some(t), len }),
    ensures
        1 <= len <= s.len(),
        s[len - 1] == tag_byte(t),
        parse(s.skip(len - 1)) == (Parsed::Partial { tag: Some(t), len: 1 }),
    decreases s.len(),
{
    if s.len() >= 14 && tag_of(s[0]) == Some(Tag::StreamData) && owner_of(s[9]) is Some && field(s, 10, 14) == 0 {
        lemma_partial_tagged(s.skip(14), t, (len - 14) as nat);
        assert(s.skip(14).skip(len - 15) =~= s.skip(len - 1));
    } else {
        assert(s.skip(0) =~= s);
    }
}

/// A decoding step that fails consumes at least one byte of `buf`, the
/// bytes behind the held tag byte, if any.
pub proof fn lemma_decoded_err_consumes(
    held: Seq<u8>,
    buf: Seq<u8>,
    r: Result<Option<Frame>>,
    tag: Option<Tag>,
    stream: Option<(u64, Owner, usize)>,
    after: Seq<u8>,
)
    requires
        held.len() <= 1,
        held.len() == 1 ==> tag_of(held[0]) is Some,
        r is Err,
        decoded(parse(held + buf), held + buf, r, tag, stream, after),
    ensures
        after.len() < buf.len(),
{
    let s = held + buf;
    lemma_parse_len(s);
    if s.len() >= 14 && tag_of(s[0]) == Some(Tag::StreamData) && owner_of(s[9]) is Some && field(s, 10, 14) == 0 {
        lemma_parse_len(s.skip(14));
    }
}

/// A decoding step that gives no frame leaves the decoder idle on the bytes
/// that are left.
pub proof fn lemma_decoded_none_idle(eff: Seq<u8>, d: Decoder, after: Seq<u8>)
    requires
        decoded(parse(eff), eff, Ok(None), d.pending_tag(), d.pending_stream(), after),
    ensures
        d.idle_on(after),
{
    match parse(eff) {
        Parsed::Partial { tag: None, len } => {
            lemma_partial_untagged(eff, len);
            assert(d.held() + after =~= Seq::<u8>::empty());
        },
        Parsed::Partial { tag: Some(t), len } => {
            lemma_partial_tagged(eff, t, len);
            assert(d.held() + after =~= eff.skip(len - 1));
        },
        _ => {},
    }
}

/// Decodes frames from a byte queue, remembering a frame header or a
/// payload that is only partly there.
#[derive(Debug)]
pub struct Decoder {
    tag: Option<Tag>,
    stream: Option<(u64, Owner, usize)>,
}

impl Default for Decoder {
    fn default() -> (d: Self)
        ensures
            d.wf(),
            d.pending_tag() is None,
            d.pending_stream() is None,
    {
        Decoder { tag: None, stream: None }
    }
}

/// What a decoding step does when no tag and no payload is pending.
enum Step {
    Done(Result<Option<Frame>>),
    Skip,
}

impl Decoder {
    /// A pending payload is never empty, and never pending with a tag.
    pub closed spec fn wf(&self) -> bool {
        &&& self.stream matches Some((_, _, len)) ==> len > 0
        &&& self.stream is Some ==> self.tag is None
    }

    /// The tag read ahead of a frame whose fields have not all arrived.
    pub closed spec fn pending_tag(&self) -> Option<Tag> {
        self.tag
    }

    /// The stream, owner and remaining length of a payload only partly
    /// decoded.
    pub closed spec fn pending_stream(&self) -> Option<(u64, Owner, usize)> {
        self.stream
    }

    /// The bytes the decoder has consumed but not yet decoded: the pending
    /// tag byte, if any.
    pub open spec fn held(&self) -> Seq<u8> {
        match self.pending_tag() {
            Some(t) => seq![tag_byte(t)],
            None => Seq::<u8>::empty(),
        }
    }

    /// Nothing more decodes from `buf` until more bytes arrive: either a
    /// payload waits for its next bytes and `buf` is empty, or the held tag
    /// and `buf` are only the start of a frame.
    pub open spec fn idle_on(&self, buf: Seq<u8>) -> bool {
        match self.pending_stream() {
            Some(_) => buf.len() == 0,
            None => parse(self.held() + buf) == (Parsed::Partial { tag: self.pending_tag(), len: self.held().len() }),
        }
    }

    /// Decodes the next frame from `buf`. A payload that was only partly
    /// there continues where it stopped; otherwise the held tag and the
    /// queued bytes decode as `parse` says.
    #[verifier::rlimit(40)]
    pub fn decode(&mut self, buf: &mut ByteVec) -> (r: Result<Option<Frame>>)
        requires
            old(self).wf(),
            old(buf).wf(),
        ensures
            final(self).wf(),
            final(buf).wf(),
            old(self).pending_stream() matches Some((id, owner, rem)) ==> {
                &&& final(self).pending_tag() is None
                &&& if old(buf)@.len() == 0 {
                    r == Ok::<Option<Frame>, Error>(None) && final(self).pending_stream() == old(self).pending_stream()
                        && final(buf)@ == old(buf)@
                } else {
                    r matches Ok(Some(Frame::StreamData { id: i, owner: o, data })) && i == id && o == owner
                        && 0 < bytes_view(data).len() <= rem && old(buf)@ == bytes_view(data) + final(buf)@
                        && final(self).pending_stream() == (if bytes_view(data).len() < rem {
                            Some((id, owner, (rem - bytes_view(data).len()) as usize))
                        } else {
                            None
                        })
                }
            },
            old(self).pending_stream() is None ==> decoded(
                parse(old(self).held() + old(buf)@),
                old(self).held() + old(buf)@,
                r,
                final(self).pending_tag(),
                final(self).pending_stream(),
                final(buf)@,
            ),
            r matches Ok(Some(_)) ==> final(buf)@.len() < old(buf)@.len(),
            final(buf)@.len() <= old(buf)@.len(),
            final(buf).chunk_count() <= old(buf).chunk_count(),
            old(buf).chunk_count() <= 1 ==> (r matches Ok(Some(Frame::StreamData { .. }))
                ==> final(self).pending_stream() is None || final(buf)@.len() == 0),
    {
        if let Some((id, owner, len)) = self.stream.take() {
            return self.decode_stream(buf, id, owner, len);
        }
        let ghost eff0 = self.held() + buf@;
        proof {
            lemma_parse_len(eff0);
        }
        let ghost mut k: nat = 0;
        proof {
            assert(eff0.skip(0) =~= eff0);
            lemma_parse_len(eff0);
        }
        loop
            invariant
                self.wf(),
                buf.wf(),
                self.stream is None,
                old(self).stream is None,
                eff0 == old(self).held() + old(buf)@,
                k <= eff0.len(),
                eff0.skip(k as int) == self.held() + buf@,
                parse(eff0) == shifted(parse(self.held() + buf@), k),
                parsed_len(parse(self.held() + buf@)) <= eff0.len() - k,
                buf.chunk_count() <= old(buf).chunk_count(),
            decreases buf@.len() + if self.tag is Some { 1int } else { 0int },
        {
            let ghost cur = self.held() + buf@;
            let ghost before = buf@;
            let tag = match self.tag.take() {
                Some(t) => {
                    assert(cur[0] == tag_byte(t));
                    assert(cur.skip(1) =~= buf@);
                    t
                },
                None => {
                    assert(cur =~= buf@);
                    if buf.remaining() == 0 {
                        proof {
                            assert(cur.len() == 0);
                            assert(cur.skip(0) =~= buf@);
                            lemma_decoded_shifted(parse(cur), eff0, k, Ok(None), None, None, buf@);
                            lemma_decoded_len(parse(eff0), eff0, Ok(None), None, None, buf@);
                        }
                        return Ok(None);
                    }
                    let b = buf.get_u8();
                    assert(cur.skip(1) =~= buf@);
                    match tag_from_u8(b) {
                        Some(t) => t,
                        None => {
                            proof {
                                lemma_decoded_shifted(parse(cur), eff0, k, Err(Error::InvalidFrameTag), None, None, buf@);
                                lemma_decoded_len(parse(eff0), eff0, Err(Error::InvalidFrameTag), None, None, buf@);
                            }
                            return Err(Error::InvalidFrameTag);
                        },
                    }
                },
            };
            assert(cur[0] == tag_byte(tag));
            assert(tag_of(cur[0]) == Some(tag));
            match self.decode_frame(buf, tag, Ghost(cur)) {
                Step::Done(r) => {
                    proof {
                        lemma_decoded_shifted(parse(cur), eff0, k, r, self.tag, self.stream, buf@);
                        lemma_decoded_progress(parse(eff0), eff0, r, self.tag, self.stream, buf@);
                        lemma_decoded_len(parse(eff0), eff0, r, self.tag, self.stream, buf@);
                    }
                    return r;
                },
                Step::Skip => {
                    proof {
                        assert(parse(cur) == shifted(parse(cur.skip(14)), 14));
                        assert(self.held() + buf@ =~= cur.skip(14));
                        assert(eff0.skip((k + 14) as int) =~= cur.skip(14));
                        lemma_parse_len(cur.skip(14));
                        k = k + 14;
                    }
                },
            }
        }
    }

    /// Decodes the frame whose tag `tag` was just read; `cur` is the input
    /// from that tag on.
    fn decode_frame(&mut self, buf: &mut ByteVec, tag: Tag, Ghost(cur): Ghost<Seq<u8>>) -> (step: Step)
        requires
            old(self).tag is None,
            old(self).stream is None,
            old(buf).wf(),
            cur.len() >= 1,
            cur[0] == tag_byte(tag),
            tag_of(cur[0]) == Some(tag),
            cur.skip(1) == old(buf)@,
        ensures
            final(self).wf(),
            final(buf).wf(),
            match step {
                Step::Done(r) => decoded(parse(cur), cur, r, final(self).tag, final(self).stream, final(buf)@),
                Step::Skip => {
                    &&& parse(cur) == shifted(parse(cur.skip(14)), 14)
                    &&& final(buf)@ == cur.skip(14)
                    &&& final(self).tag is None
                    &&& final(self).stream is None
                },
            },
            final(buf).chunk_count() <= old(buf).chunk_count(),
            old(buf).chunk_count() <= 1 ==> (step matches Step::Done(Ok(Some(Frame::StreamData { .. })))
                ==> final(self).stream is None || final(buf)@.len() == 0),
    {
        proof {
            assert(cur.len() == old(buf)@.len() + 1);
        }
        let n = needed_len(tag);
        if buf.remaining() < n {
            self.tag = Some(tag);
            proof {
                assert(self.held() + buf@ =~= cur);
                assert(cur.skip(1) =~= buf@);
            }
            return Step::Done(Ok(None));
        }
        match tag {
            Tag::StreamOpen => {
                let id = buf.get_be(8);
                let b = buf.get_u8();
                proof {
                    assert(old(buf)@.take(8) =~= cur.subrange(1, 9));
                    assert(buf@ =~= cur.skip(10));
                }
                Step::Done(Ok(Some(Frame::StreamOpen { id, bidirectional: b != 0 })))
            },
            Tag::StreamData => {
                let id = buf.get_be(8);
                let ob = buf.get_u8();
                proof {
                    assert(old(buf)@.take(8) =~= cur.subrange(1, 9));
                    assert(buf@ =~= cur.skip(10));
                }
                let owner = match owner_from_u8(ob) {
                    Some(o) => o,
                    None => return Step::Done(Err(Error::InvalidOwnerId)),
                };
                let ghost after_owner = buf@;
                let len = buf.get_be(4);
                proof {
                    assert(after_owner.take(4) =~= cur.subrange(10, 14));
                    assert(buf@ =~= cur.skip(14));
                    crate::endian::lemma_be_value_bound(cur.subrange(10, 14));
                    assert(pow256(4) == 0x1_0000_0000) by {
                        reveal_with_fuel(pow256, 5);
                    }
                }
                if len == 0 {
                    return Step::Skip;
                }
                let r = self.decode_stream(buf, id, owner, len as usize);
                Step::Done(r)
            },
            Tag::StreamFinish => {
                let id = buf.get_be(8);
                let ob = buf.get_u8();
                proof {
                    assert(old(buf)@.take(8) =~= cur.subrange(1, 9));
                    assert(buf@ =~= cur.skip(10));
                }
                match owner_from_u8(ob) {
                    Some(owner) => Step::Done(Ok(Some(Frame::StreamFinish { id, owner }))),
                    None => Step::Done(Err(Error::InvalidOwnerId)),
                }
            },
            Tag::MaxStreams => {
                let up_to = buf.get_be(8);
                proof {
                    assert(old(buf)@.take(8) =~= cur.subrange(1, 9));
                    assert(buf@ =~= cur.skip(9));
                }
                Step::Done(Ok(Some(Frame::MaxStreams { up_to })))
            },
            Tag::MaxStreamData => {
                let id = buf.get_be(8);
                let ob = buf.get_u8();
                proof {
                    assert(old(buf)@.take(8) =~= cur.subrange(1, 9));
                    assert(buf@ =~= cur.skip(10));
                }
                let owner = match owner_from_u8(ob) {
                    Some(o) => o,
                    None => return Step::Done(Err(Error::InvalidOwnerId)),
                };
                let ghost after_owner = buf@;
                let up_to = buf.get_be(8);
                proof {
                    assert(after_owner.take(8) =~= cur.subrange(10, 18));
                    assert(buf@ =~= cur.skip(18));
                }
                Step::Done(Ok(Some(Frame::MaxStreamData { id, owner, up_to })))
            },
            Tag::InitialMaxStreamData => {
                let up_to = buf.get_be(8);
                proof {
                    assert(old(buf)@.take(8) =~= cur.subrange(1, 9));
                    assert(buf@ =~= cur.skip(9));
                }
                Step::Done(Ok(Some(Frame::InitialMaxStreamData { up_to })))
            },
        }
    }

    /// Takes the payload of stream `id`, of which `len` bytes remain, from
    /// the first chunk of `buf`.
    fn decode_stream(&mut self, buf: &mut ByteVec, id: u64, owner: Owner, len: usize) -> (r: Result<Option<Frame>>)
        requires
            len > 0,
            old(self).tag is None,
            old(buf).wf(),
        ensures
            final(self).wf(),
            final(buf).wf(),
            final(self).tag is None,
            if old(buf)@.len() == 0 {
                r == Ok::<Option<Frame>, Error>(None) && final(self).stream == Some((id, owner, len))
                    && final(buf)@ == old(buf)@
            } else {
                r matches Ok(Some(Frame::StreamData { id: i, owner: o, data })) && i == id && o == owner
                    && 0 < bytes_view(data).len() <= len && old(buf)@ == bytes_view(data) + final(buf)@
                    && final(self).stream == (if bytes_view(data).len() < len {
                        Some((id, owner, (len - bytes_view(data).len()) as usize))
                    } else {
                        None
                    })
                    && bytes_view(data).len() == (if len <= old(buf).front_len() { len as nat } else { old(buf).front_len() })
            },
            final(buf).chunk_count() <= old(buf).chunk_count(),
            old(buf).chunk_count() <= 1 ==> (r matches Ok(Some(_)) ==> final(self).stream is None || final(buf)@.len() == 0),
    {
        proof {
            buf.lemma_front_len();
            if buf.chunk_count() <= 1 {
                buf.lemma_single_chunk();
            }
        }
        let chunk_len = buf.chunk().len();
        if chunk_len == 0 {
            self.stream = Some((id, owner, len));
            return Ok(None);
        }
        let ghost before = buf@;
        if chunk_len >= len {
            let data = buf.copy_to_bytes(len);
            self.stream = None;
            proof {
                assert(before =~= bytes_view(data) + buf@);
            }
            Ok(Some(Frame::StreamData { id, owner, data }))
        } else {
            let data = buf.copy_to_bytes(chunk_len);
            self.stream = Some((id, owner, len - chunk_len));
            proof {
                assert(before =~= bytes_view(data) + buf@);
            }
            Ok(Some(Frame::StreamData { id, owner, data }))
        }
    }
}

fn needed_len(tag: Tag) -> (n: usize)
    ensures
        n == needed(tag),
{
    match tag {
        Tag::StreamOpen => 9,
        Tag::StreamData => 13,
        Tag::StreamFinish => 9,
        Tag::MaxStreams => 8,
        Tag::MaxStreamData => 17,
        Tag::InitialMaxStreamData => 8,
    }
}

fn owner_from_u8(b: u8) -> (o: Option<Owner>)
    ensures
        o == owner_of(b),
{
    match b {
        0 => Some(Owner::Local),
        1 => Some(Owner::Remote),
        _ => None,
    }
}

} // verus!

verus! {

/// What `write_header` writes for a frame decodes back to that frame: a
/// frame without payload is decoded whole, and a stream-data frame with a
/// payload of fewer than 2^32 bytes decodes to its header, after which
/// exactly its payload follows.
pub proof fn lemma_frame_roundtrip(f: Frame, rest: Seq<u8>)
    requires
        f matches Frame::StreamData { data, .. } ==> 0 < bytes_view(data).len() < 0x1_0000_0000,
    ensures
        match f {
            Frame::StreamData { id, owner, data } => parse(header_of(f) + (bytes_view(data) + rest))
                == (Parsed::DataHeader { id, owner, data_len: bytes_view(data).len(), len: 14 }),
            _ => parse(header_of(f) + rest) matches Parsed::Frame { frame, len } && frame_matches(f, frame)
                && len == header_of(f).len(),
        },
{
    match f {
        Frame::StreamOpen { id, bidirectional } => {
            lemma_parse_frame_bytes(SpecFrame::StreamOpen { id, bidirectional }, rest);
        },
        Frame::StreamData { id, owner, data } => {
            let n = bytes_view(data).len();
            assert(n % 0x1_0000_0000 == n);
            lemma_parse_data_header(id, owner, n, bytes_view(data) + rest);
        },
        Frame::StreamFinish { id, owner } => {
            lemma_parse_frame_bytes(SpecFrame::StreamFinish { id, owner }, rest);
        },
        Frame::MaxStreams { up_to } => {
            lemma_parse_frame_bytes(SpecFrame::MaxStreams { up_to }, rest);
        },
        Frame::MaxStreamData { id, owner, up_to } => {
            lemma_parse_frame_bytes(SpecFrame::MaxStreamData { id, owner, up_to }, rest);
        },
        Frame::InitialMaxStreamData { up_to } => {
            lemma_parse_frame_bytes(SpecFrame::InitialMaxStreamData { up_to }, rest);
        },
    }
}

/// The payload that follows the header of `f`: the data of a stream-data
/// frame, nothing for the others.
pub open spec fn body_bytes(f: Frame) -> Seq<u8> {
    match f {
        Frame::StreamData { data, .. } => bytes_view(data),
        _ => Seq::<u8>::empty(),
    }
}

/// `a` and `b` are the same frame; stream data is compared by its bytes.
pub open spec fn same_frame(a: Frame, b: Frame) -> bool {
    match (a, b) {
        (Frame::StreamData { id: i, owner: o, data: d }, Frame::StreamData { id: j, owner: p, data: e }) => i == j
            && o == p && bytes_view(d) == bytes_view(e),
        (Frame::StreamOpen { id: i, bidirectional: x }, Frame::StreamOpen { id: j, bidirectional: y }) => i == j && x == y,
        (Frame::StreamFinish { id: i, owner: o }, Frame::StreamFinish { id: j, owner: p }) => i == j && o == p,
        (Frame::MaxStreams { up_to: u }, Frame::MaxStreams { up_to: v }) => u == v,
        (Frame::MaxStreamData { id: i, owner: o, up_to: u }, Frame::MaxStreamData { id: j, owner: p, up_to: v }) => i == j
            && o == p && u == v,
        (Frame::InitialMaxStreamData { up_to: u }, Frame::InitialMaxStreamData { up_to: v }) => u == v,
        _ => false,
    }
}

/// Law: a decoder with nothing held or pending, given the bytes of frame `f`
/// followed by `rest`, decodes `f` and leaves `rest`, provided a stream
/// frame's payload is not cut short while bytes remain, which `decode`
/// guarantees for bytes held in one chunk.
pub proof fn lemma_decode_roundtrip(
    f: Frame,
    rest: Seq<u8>,
    r: Result<Option<Frame>>,
    tag: Option<Tag>,
    stream: Option<(u64, Owner, usize)>,
    after: Seq<u8>,
)
    requires
        f matches Frame::StreamData { data, .. } ==> 0 < bytes_view(data).len() < 0x1_0000_0000,
        decoded(
            parse(header_of(f) + body_bytes(f) + rest),
            header_of(f) + body_bytes(f) + rest,
            r,
            tag,
            stream,
            after,
        ),
        stream is None || after.len() == 0,
    ensures
        r matches Ok(Some(g)) && same_frame(f, g),
        after == rest,
        tag is None,
        stream is None,
{
    let eff = header_of(f) + body_bytes(f) + rest;
    match f {
        Frame::StreamData { id, owner, data } => {
            lemma_frame_roundtrip(f, rest);
            assert(eff =~= header_of(f) + (bytes_view(data) + rest));
            lemma_u64_fits(id);
            crate::endian::lemma_be_bytes_len(bytes_view(data).len() % 0x1_0000_0000, 4);
            assert(header_of(f).len() == 14);
            assert(eff.skip(14) =~= bytes_view(data) + rest);
            match r {
                Ok(Some(Frame::StreamData { data: d, .. })) => {
                    let n = bytes_view(d).len();
                    if n < bytes_view(data).len() {
                        assert(bytes_view(d) + after =~= bytes_view(data) + rest);
                        assert((bytes_view(d) + after).len() == n);
                    }
                    assert(bytes_view(d) =~= (bytes_view(data) + rest).take(n as int));
                    assert(bytes_view(d) =~= bytes_view(data));
                    assert(after =~= (bytes_view(d) + after).skip(n as int));
                    assert(after =~= rest);
                },
                _ => {},
            }
        },
        _ => {
            lemma_frame_roundtrip(f, rest);
            assert(eff =~= header_of(f) + rest);
            assert(eff.skip(header_of(f).len() as int) =~= rest);
        },
    }
}

/// Law: the payload parts that successive decoding steps take, each off
/// the front of what the previous step left (`bufs[i] == parts[i] +
/// bufs[i + 1]`, as `decode` ensures), put together are the bytes they were
/// taken from.
pub proof fn lemma_parts_concatenate(bufs: Seq<Seq<u8>>, parts: Seq<Seq<u8>>)
    requires
        bufs.len() == parts.len() + 1,
        forall|i: int| 0 <= i < parts.len() ==> #[trigger] bufs[i] == parts[i] + bufs[i + 1],
    ensures
        bufs[0] == parts.flatten() + bufs.last(),
    decreases parts.len(),
{
    if parts.len() == 0 {
        assert(parts.flatten() =~= Seq::<u8>::empty());
        assert(bufs[0] =~= parts.flatten() + bufs.last());
    } else {
        let b2 = bufs.drop_first();
        let p2 = parts.drop_first();
        assert forall|i: int| 0 <= i < p2.len() implies #[trigger] b2[i] == p2[i] + b2[i + 1] by {
            assert(bufs[i + 1] == parts[i + 1] + bufs[i + 2]);
        }
        lemma_parts_concatenate(b2, p2);
        assert(bufs[0] == parts[0] + bufs[1]);
        assert(parts.flatten() == parts[0] + p2.flatten());
        assert(bufs[0] =~= parts.flatten() + bufs.last());
    }
}

/// Law: a decoder with nothing held, given the first `k` bytes of the
/// encoding of frame `f` (a frame without payload), takes only the tag
/// byte, remembers the tag and decodes nothing; given the remaining bytes
/// and whatever follows them, `rest`, it then decodes `f` and leaves `rest`.
pub proof fn lemma_decode_split_header(
    f: SpecFrame,
    k: int,
    rest: Seq<u8>,
    r1: Result<Option<Frame>>,
    tag1: Option<Tag>,
    stream1: Option<(u64, Owner, usize)>,
    after1: Seq<u8>,
    r2: Result<Option<Frame>>,
    tag2: Option<Tag>,
    stream2: Option<(u64, Owner, usize)>,
    after2: Seq<u8>,
)
    requires
        1 <= k < frame_bytes(f).len(),
        decoded(parse(frame_bytes(f).take(k)), frame_bytes(f).take(k), r1, tag1, stream1, after1),
        tag1 is Some,
        decoded(
            parse(seq![tag_byte(tag1->0)] + (after1 + (frame_bytes(f).skip(k) + rest))),
            seq![tag_byte(tag1->0)] + (after1 + (frame_bytes(f).skip(k) + rest)),
            r2,
            tag2,
            stream2,
            after2,
        ),
    ensures
        r1 == Ok::<Option<Frame>, Error>(None),
        tag1 == tag_of(frame_bytes(f)[0]),
        after1 == frame_bytes(f).take(k).skip(1),
        r2 matches Ok(Some(g)) && frame_matches(g, f),
        after2 == rest,
{
    let h = frame_bytes(f);
    let s = h.take(k);
    match f {
        SpecFrame::StreamOpen { id, .. } => {
            lemma_u64_fits(id);
        },
        SpecFrame::StreamFinish { id, .. } => {
            lemma_u64_fits(id);
        },
        SpecFrame::MaxStreams { up_to } => {
            lemma_u64_fits(up_to);
        },
        SpecFrame::MaxStreamData { id, up_to, .. } => {
            lemma_u64_fits(id);
            lemma_u64_fits(up_to);
        },
        SpecFrame::InitialMaxStreamData { up_to } => {
            lemma_u64_fits(up_to);
        },
    }
    assert(s[0] == h[0]);
    assert(h.len() == 1 + needed(tag_of(h[0])->0));
    let whole = seq![tag_byte(tag1->0)] + (after1 + (h.skip(k) + rest));
    assert(whole =~= h + rest);
    lemma_parse_frame_bytes(f, rest);
    assert((h + rest).skip(h.len() as int) =~= rest);
}

} // verus!
