//! Fallible reads and writes of big-endian integers on byte buffers.

use crate::byte_buf::{
    bytes_copy_to_slice, bytes_len, bytes_mut_copy_to_slice, bytes_mut_len, bytes_mut_put_slice,
    bytes_mut_remaining_mut, bytes_mut_view, bytes_view,
};
use crate::endian::{
    be_bytes, be_decode, be_encode, be_value, lemma_be_bytes_len, lemma_be_value_bound, pow256,
};
use vstd::prelude::*;

verus! {

/// The buffer held too few bytes (or too little room) for the operation.
#[derive(Clone, Copy, Debug)]
pub struct Eof;

/// A buffer that bytes can be read from, front first.
pub trait TryBuf {
    /// The bytes that are left to read.
    spec fn contents(&self) -> Seq<u8>;

    /// The number of bytes left to read.
    fn remaining(&self) -> (n: usize)
        ensures
            n == self.contents().len(),
    ;

    /// Fills `dst` with the next bytes, or fails without reading anything
    /// when fewer than `dst.len()` are left.
    fn read_slice(&mut self, dst: &mut [u8]) -> (r: Result<(), Eof>)
        ensures
            r is Err <==> old(dst)@.len() > old(self).contents().len(),
            r is Err ==> final(self).contents() == old(self).contents() && final(dst)@ == old(dst)@,
            r is Ok ==> final(dst)@ == old(self).contents().take(old(dst)@.len() as int)
                && final(self).contents() == old(self).contents().skip(old(dst)@.len() as int),
    ;

    /// Reads one byte.
    fn read_u8(&mut self) -> (r: Result<u8, Eof>)
        ensures
            read_be_result(old(self).contents(), final(self).contents(), 1, r is Ok, r->Ok_0 as int),
    {
        let mut v = [0u8; 1];
        self.read_slice(&mut v)?;
        proof {
            lemma_be_single(v@);
        }
        Ok(v[0])
    }

    /// Reads a big-endian `u16`.
    fn read_u16(&mut self) -> (r: Result<u16, Eof>)
        ensures
            read_be_result(old(self).contents(), final(self).contents(), 2, r is Ok, r->Ok_0 as int),
    {
        let mut v = [0u8; 2];
        self.read_slice(&mut v)?;
        let x = be_decode(&v);
        proof {
            lemma_be_value_bound(v@);
            assert(pow256(2) == 65536) by {
                reveal_with_fuel(pow256, 3);
            }
        }
        Ok(x as u16)
    }

    /// Reads a big-endian `u32`.
    fn read_u32(&mut self) -> (r: Result<u32, Eof>)
        ensures
            read_be_result(old(self).contents(), final(self).contents(), 4, r is Ok, r->Ok_0 as int),
    {
        let mut v = [0u8; 4];
        self.read_slice(&mut v)?;
        let x = be_decode(&v);
        proof {
            lemma_be_value_bound(v@);
            assert(pow256(4) == 0x1_0000_0000) by {
                reveal_with_fuel(pow256, 5);
            }
        }
        Ok(x as u32)
    }

    /// Reads a big-endian `u64`.
    fn read_u64(&mut self) -> (r: Result<u64, Eof>)
        ensures
            read_be_result(old(self).contents(), final(self).contents(), 8, r is Ok, r->Ok_0 as int),
    {
        let mut v = [0u8; 8];
        self.read_slice(&mut v)?;
        let x = be_decode(&v);
        Ok(x)
    }
}

/// What reading an `n`-byte big-endian number from `before` leaves in
/// `after`, whether it succeeds (`ok`) and the number read (`v`): the number
/// made of the first `n` bytes, or a failure with nothing read when fewer
/// than `n` bytes are there.
pub open spec fn read_be_result(before: Seq<u8>, after: Seq<u8>, n: nat, ok: bool, v: int) -> bool {
    if before.len() < n {
        !ok && after == before
    } else {
        ok && v == be_value(before.take(n as int)) && after == before.skip(n as int)
    }
}

pub proof fn lemma_be_single(s: Seq<u8>)
    requires
        s.len() == 1,
    ensures
        be_value(s) == s[0],
{
    assert(s.drop_last().len() == 0);
    assert(be_value(s.drop_last()) == 0);
    assert(s.last() == s[0]);
}

/// A buffer that bytes can be appended to.
pub trait TryBufMut {
    /// The bytes written so far.
    spec fn written(&self) -> Seq<u8>;

    /// The number of bytes that can still be written.
    spec fn room(&self) -> nat;

    /// The number of bytes that can still be written.
    fn remaining_mut(&self) -> (n: usize)
        ensures
            n == self.room(),
    ;

    /// Appends `src`, or fails without writing when it does not fit.
    fn write_slice(&mut self, src: &[u8]) -> (r: Result<(), Eof>)
        ensures
            r is Err <==> src@.len() > old(self).room(),
            r is Err ==> final(self).written() == old(self).written(),
            r is Ok ==> final(self).written() == old(self).written() + src@,
    ;

    /// Appends one byte.
    fn write_u8(&mut self, v: u8) -> (r: Result<(), Eof>)
        ensures
            r is Err <==> 1 > old(self).room(),
            r is Err ==> final(self).written() == old(self).written(),
            r is Ok ==> final(self).written() == old(self).written() + seq![v],
    {
        let a = [v];
        let r = self.write_slice(&a);
        proof {
            assert(a@ =~= seq![v]);
        }
        r
    }

    /// Appends `v` as two big-endian bytes.
    fn write_u16(&mut self, v: u16) -> (r: Result<(), Eof>)
        ensures
            r is Err <==> 2 > old(self).room(),
            r is Err ==> final(self).written() == old(self).written(),
            r is Ok ==> final(self).written() == old(self).written() + be_bytes(v as nat, 2),
    {
        let mut out: Vec<u8> = Vec::new();
        be_encode(v as u64, 2, &mut out);
        proof {
            lemma_be_bytes_len(v as nat, 2);
        }
        self.write_slice(out.as_slice())
    }

    /// Appends `v` as four big-endian bytes.
    fn write_u32(&mut self, v: u32) -> (r: Result<(), Eof>)
        ensures
            r is Err <==> 4 > old(self).room(),
            r is Err ==> final(self).written() == old(self).written(),
            r is Ok ==> final(self).written() == old(self).written() + be_bytes(v as nat, 4),
    {
        let mut out: Vec<u8> = Vec::new();
        be_encode(v as u64, 4, &mut out);
        proof {
            lemma_be_bytes_len(v as nat, 4);
        }
        self.write_slice(out.as_slice())
    }

    /// Appends `v` as eight big-endian bytes.
    fn write_u64(&mut self, v: u64) -> (r: Result<(), Eof>)
        ensures
            r is Err <==> 8 > old(self).room(),
            r is Err ==> final(self).written() == old(self).written(),
            r is Ok ==> final(self).written() == old(self).written() + be_bytes(v as nat, 8),
    {
        let mut out: Vec<u8> = Vec::new();
        be_encode(v, 8, &mut out);
        proof {
            lemma_be_bytes_len(v as nat, 8);
        }
        self.write_slice(out.as_slice())
    }
}

impl TryBuf for &[u8] {
    open spec fn contents(&self) -> Seq<u8> {
        (*self)@
    }

    fn remaining(&self) -> (n: usize) {
        self.len()
    }

    fn read_slice(&mut self, dst: &mut [u8]) -> (r: Result<(), Eof>) {
        if dst.len() > self.len() {
            return Err(Eof);
        }
        let (source, remaining) = self.split_at(dst.len());
        let mut i: usize = 0;
        while i < source.len()
            invariant
                i <= source@.len() == dst@.len(),
                source@ == old(self)@.take(old(dst)@.len() as int),
                dst@.len() == old(dst)@.len(),
                forall|j: int| 0 <= j < i ==> dst@[j] == source@[j],
            decreases source@.len() - i,
        {
            dst[i] = source[i];
            i = i + 1;
        }
        assert(dst@ =~= source@);
        *self = remaining;
        Ok(())
    }
}

impl TryBuf for bytes::Bytes {
    open spec fn contents(&self) -> Seq<u8> {
        bytes_view(*self)
    }

    fn remaining(&self) -> (n: usize) {
        bytes_len(self)
    }

    fn read_slice(&mut self, dst: &mut [u8]) -> (r: Result<(), Eof>) {
        if dst.len() > bytes_len(self) {
            return Err(Eof);
        }
        bytes_copy_to_slice(self, dst);
        Ok(())
    }
}

impl TryBuf for bytes::BytesMut {
    open spec fn contents(&self) -> Seq<u8> {
        bytes_mut_view(*self)
    }

    fn remaining(&self) -> (n: usize) {
        bytes_mut_len(self)
    }

    fn read_slice(&mut self, dst: &mut [u8]) -> (r: Result<(), Eof>) {
        if dst.len() > bytes_mut_len(self) {
            return Err(Eof);
        }
        bytes_mut_copy_to_slice(self, dst);
        Ok(())
    }
}

impl TryBufMut for bytes::BytesMut {
    open spec fn written(&self) -> Seq<u8> {
        bytes_mut_view(*self)
    }

    open spec fn room(&self) -> nat {
        (isize::MAX - bytes_mut_view(*self).len()) as nat
    }

    fn remaining_mut(&self) -> (n: usize) {
        bytes_mut_remaining_mut(self)
    }

    fn write_slice(&mut self, src: &[u8]) -> (r: Result<(), Eof>) {
        if src.len() > bytes_mut_remaining_mut(self) {
            return Err(Eof);
        }
        bytes_mut_put_slice(self, src);
        Ok(())
    }
}

} // verus!
