//! The operations that a controller sends to a benchmark server, and their
//! fixed-size wire encoding.

use crate::endian::be_value;
use crate::time::{duration_as_nanos, duration_new};
use crate::vm::ByteVec;
use core::time::Duration;
use vstd::prelude::*;

verus! {

/// One operation for the server to carry out.
#[derive(Clone, Copy, Debug)]
pub enum Op {
    /// Pause for the specified duration before processing the next op
    Wait { timeout: Duration },
    /// Open a bidirectional stream with an identifier
    BidirectionalStream { id: u64 },
    /// Open a unidirectional stream with an identifier
    UnidirectionalStream { id: u64 },
    /// Send a specific amount of data over the stream id
    Send { id: u64, len: usize },
    /// Send a reset on a stream id
    Reset { id: u64, err: u64 },
    /// Finish the stream
    Finish { id: u64 },
    /// Await a stream operation before moving forward
    Await { id: u64 },
    /// Emit a trace event
    Trace { id: u64 },
}

/// The size of an encoded operation: a tag byte and two big-endian `u64`s.
pub const OP_SIZE: usize = 17;

/// The tag byte of an encoded operation.
pub open spec fn op_tag(bytes: Seq<u8>) -> u8 {
    bytes[0]
}

/// The first argument of an encoded operation.
pub open spec fn op_a(bytes: Seq<u8>) -> nat {
    be_value(bytes.subrange(1, 9))
}

/// The second argument of an encoded operation.
pub open spec fn op_b(bytes: Seq<u8>) -> nat {
    be_value(bytes.subrange(9, 17))
}

/// The nanoseconds that a `Wait` takes from its second argument: its low
/// 32 bits.
pub open spec fn wait_nanos(b: nat) -> nat {
    b % 0x1_0000_0000
}

/// `bytes` start with an encoded `Wait` whose nanoseconds would carry past
/// the largest number of seconds.
pub open spec fn wait_overflows(bytes: Seq<u8>) -> bool {
    &&& bytes.len() >= 17
    &&& op_tag(bytes) == 0
    &&& op_a(bytes) + wait_nanos(op_b(bytes)) / 1_000_000_000 > u64::MAX
}

/// The operation that tag `t` and arguments `a` and `b` encode, as `r`
/// holds it (`None` for an unknown tag).
pub open spec fn op_decoded(r: Option<Op>, t: u8, a: nat, b: nat) -> bool {
    match r {
        None => t > 7,
        Some(op) => match op {
            Op::Wait { timeout } => t == 0 && duration_as_nanos(timeout) == a * 1_000_000_000 + wait_nanos(b),
            Op::BidirectionalStream { id } => t == 1 && id == a,
            Op::UnidirectionalStream { id } => t == 2 && id == a,
            Op::Send { id, len } => t == 3 && id == a && len == b as usize,
            Op::Reset { id, err } => t == 4 && id == a && err == b,
            Op::Finish { id } => t == 5 && id == a,
            Op::Await { id } => t == 6 && id == a,
            Op::Trace { id } => t == 7 && id == a,
        },
    }
}

/// Whether the operation encoded at position `at` of `buf` is a `Wait`
/// whose duration cannot be represented, which `Op::decode` must not be
/// given.
pub fn wait_overflows_at(buf: &ByteVec, at: usize) -> (b: bool)
    requires
        buf.wf(),
        at <= buf@.len(),
    ensures
        b == wait_overflows(buf@.skip(at as int)),
{
    let ghost s = buf@.skip(at as int);
    if buf.len() - at < OP_SIZE {
        return false;
    }
    if buf.get(at) != 0 {
        return false;
    }
    let a = buf.peek_be(at + 1, 8);
    let b = buf.peek_be(at + 9, 8);
    proof {
        assert(buf@.subrange(at + 1, at + 9) =~= s.subrange(1, 9));
        assert(buf@.subrange(at + 9, at + 17) =~= s.subrange(9, 17));
    }
    let nanos = b % 0x1_0000_0000;
    let carry = nanos / 1_000_000_000;
    a > u64::MAX - carry
}

/// Decoding reads each field from its fixed place: the tag is the first
/// byte, the stream id (or the seconds of a wait) is the big-endian number
/// in bytes 1 to 8, and the error code of a reset, the length of a send
/// (or the nanoseconds of a wait, from their low 32 bits) is the big-endian
/// number in bytes 9 to 16. A tag above 7 decodes to nothing.
pub proof fn law_decode_fields(bytes: Seq<u8>, r: Option<Op>)
    requires
        bytes.len() >= OP_SIZE,
        op_decoded(r, op_tag(bytes), op_a(bytes), op_b(bytes)),
    ensures
        ({
            let first = be_value(bytes.subrange(1, 9));
            let second = be_value(bytes.subrange(9, 17));
            &&& bytes[0] == 0 ==> (r matches Some(Op::Wait { timeout }) && duration_as_nanos(timeout) == first
                * 1_000_000_000 + second % 0x1_0000_0000)
            &&& bytes[0] == 1 ==> (r matches Some(Op::BidirectionalStream { id }) && id == first)
            &&& bytes[0] == 2 ==> (r matches Some(Op::UnidirectionalStream { id }) && id == first)
            &&& bytes[0] == 3 ==> (r matches Some(Op::Send { id, len }) && id == first && len == second as usize)
            &&& bytes[0] == 4 ==> (r matches Some(Op::Reset { id, err }) && id == first && err == second)
            &&& bytes[0] == 5 ==> (r matches Some(Op::Finish { id }) && id == first)
            &&& bytes[0] == 6 ==> (r matches Some(Op::Await { id }) && id == first)
            &&& bytes[0] == 7 ==> (r matches Some(Op::Trace { id }) && id == first)
            &&& bytes[0] > 7 <==> r is None
        }),
{
}

/// Two encoded resets with the same stream id but different error codes
/// decode to resets of that stream with those different codes: the error
/// code comes from the second field alone.
pub proof fn law_reset_error_from_second_field(x: Seq<u8>, y: Seq<u8>, rx: Option<Op>, ry: Option<Op>)
    requires
        x.len() >= OP_SIZE,
        y.len() >= OP_SIZE,
        x[0] == 4,
        y[0] == 4,
        x.subrange(1, 9) == y.subrange(1, 9),
        be_value(x.subrange(9, 17)) != be_value(y.subrange(9, 17)),
        op_decoded(rx, op_tag(x), op_a(x), op_b(x)),
        op_decoded(ry, op_tag(y), op_a(y), op_b(y)),
    ensures
        rx matches Some(Op::Reset { id: ix, err: ex }) && ry matches Some(Op::Reset { id: iy, err: ey }) && ix == iy
            && ex != ey,
{
}

impl Op {
    /// Decodes one operation from the front of `buf`. Nothing is read when
    /// fewer than `OP_SIZE` bytes are queued; otherwise `OP_SIZE` bytes are
    /// consumed, even when their tag is unknown.
    pub fn decode(buf: &mut ByteVec) -> (r: Option<Op>)
        requires
            old(buf).wf(),
            !wait_overflows(old(buf)@),
        ensures
            final(buf).wf(),
            old(buf)@.len() < OP_SIZE ==> r is None && final(buf)@ == old(buf)@,
            old(buf)@.len() >= OP_SIZE ==> final(buf)@ == old(buf)@.skip(OP_SIZE as int) && op_decoded(
                r,
                op_tag(old(buf)@),
                op_a(old(buf)@),
                op_b(old(buf)@),
            ),
    {
        if buf.remaining() < OP_SIZE {
            return None;
        }
        let ghost s = buf@;
        let tag = buf.get_u8();
        let ghost s1 = buf@;
        let a = buf.get_be(8);
        let ghost s2 = buf@;
        let b = buf.get_be(8);
        proof {
            assert(s1.take(8) =~= s.subrange(1, 9));
            assert(s2.take(8) =~= s.subrange(9, 17));
            assert(buf@ =~= s.skip(17));
        }
        match tag {
            0 => {
                let nanos = (b % 0x1_0000_0000) as u32;
                Some(Op::Wait { timeout: duration_new(a, nanos) })
            },
            1 => Some(Op::BidirectionalStream { id: a }),
            2 => Some(Op::UnidirectionalStream { id: a }),
            3 => {
                Some(Op::Send { id: a, len: b as usize })
            },
            4 => Some(Op::Reset { id: a, err: b }),
            5 => Some(Op::Finish { id: a }),
            6 => Some(Op::Await { id: a }),
            7 => Some(Op::Trace { id: a }),
            _ => None,
        }
    }
}

} // verus!
