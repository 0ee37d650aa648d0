//! The byte queue and the operations that a benchmark server executes on
//! behalf of a remote controller.

use crate::byte_buf::{
    bytes_advance, bytes_as_slice, bytes_from_vec, bytes_get, bytes_len, bytes_new,
    bytes_split_to, bytes_view, flatten, lemma_flatten_cons, lemma_flatten_push,
};
use crate::endian::{be_value, lemma_be_value_bound, pow256};
use std::collections::VecDeque;
use vstd::prelude::*;

pub mod duplex;
pub mod s2n_quic;
pub mod server;

verus! {

/// A queue of byte chunks, read front first.
#[derive(Debug)]
pub struct ByteVec {
    chunks: VecDeque<bytes::Bytes>,
    len: usize,
}

impl View for ByteVec {
    type V = Seq<u8>;

    /// The queued bytes, in order.
    closed spec fn view(&self) -> Seq<u8> {
        flatten(self.chunks@)
    }
}

impl Default for ByteVec {
    fn default() -> (v: Self)
        ensures
            v.wf(),
            v@ == Seq::<u8>::empty(),
            v.front_len() == 0,
    {
        ByteVec { chunks: VecDeque::new(), len: 0 }
    }
}

impl ByteVec {
    /// The length counter matches the queued bytes, and no chunk is empty.
    pub closed spec fn wf(&self) -> bool {
        &&& self.len as nat == flatten(self.chunks@).len()
        &&& forall|i: int| 0 <= i < self.chunks@.len() ==> bytes_view(#[trigger] self.chunks@[i]).len() > 0
    }

    /// The length of the first chunk, or zero when the queue is empty.
    pub closed spec fn front_len(&self) -> nat {
        if self.chunks@.len() == 0 {
            0
        } else {
            bytes_view(self.chunks@[0]).len()
        }
    }

    /// The number of chunks queued.
    pub closed spec fn chunk_count(&self) -> nat {
        self.chunks@.len()
    }

    /// With at most one chunk queued, the first chunk holds every queued
    /// byte.
    pub proof fn lemma_single_chunk(&self)
        requires
            self.wf(),
            self.chunk_count() <= 1,
        ensures
            self.front_len() == self@.len(),
    {
        if self.chunks@.len() == 1 {
            assert(self.chunks@.drop_first() =~= Seq::<bytes::Bytes>::empty());
            assert(self@ == bytes_view(self.chunks@[0]) + flatten(self.chunks@.drop_first()));
            assert(flatten(Seq::<bytes::Bytes>::empty()) =~= Seq::<u8>::empty());
        }
    }

    /// The first chunk holds at least one byte exactly when the queue does,
    /// and never more bytes than the queue.
    pub proof fn lemma_front_len(&self)
        requires
            self.wf(),
        ensures
            (self.front_len() == 0) <==> (self@.len() == 0),
            self.front_len() <= self@.len(),
    {
        if self.chunks@.len() > 0 {
            assert(bytes_view(self.chunks@[0]).len() > 0);
        }
    }

    /// The number of queued bytes.
    pub fn len(&self) -> (n: usize)
        requires
            self.wf(),
        ensures
            n == self@.len(),
    {
        self.len
    }

    /// Whether no byte is queued.
    pub fn is_empty(&self) -> (b: bool)
        requires
            self.wf(),
        ensures
            b == (self@.len() == 0),
    {
        self.len == 0
    }

    /// The number of queued bytes.
    pub fn remaining(&self) -> (n: usize)
        requires
            self.wf(),
        ensures
            n == self@.len(),
    {
        self.len
    }

    /// Appends a chunk; an empty chunk is dropped.
    pub fn push(&mut self, chunk: bytes::Bytes)
        requires
            old(self).wf(),
            old(self)@.len() + bytes_view(chunk).len() <= usize::MAX,
        ensures
            final(self).wf(),
            final(self)@ == old(self)@ + bytes_view(chunk),
            old(self)@.len() > 0 ==> final(self).front_len() == old(self).front_len(),
            old(self)@.len() == 0 ==> final(self).front_len() == bytes_view(chunk).len(),
    {
        proof {
            self.lemma_front_len();
        }
        let n = bytes_len(&chunk);
        if n != 0 {
            proof {
                lemma_flatten_push(self.chunks@, chunk);
            }
            self.len = self.len + n;
            self.chunks.push_back(chunk);
            proof {
                assert forall|i: int| 0 <= i < self.chunks@.len() implies bytes_view(
                    #[trigger] self.chunks@[i],
                ).len() > 0 by {
                    if i < self.chunks@.len() - 1 {
                        assert(self.chunks@[i] == old(self).chunks@[i]);
                    }
                }
                if old(self)@.len() == 0 {
                    assert(old(self).chunks@.len() == 0) by {
                        if old(self).chunks@.len() > 0 {
                            assert(bytes_view(old(self).chunks@[0]).len() > 0);
                        }
                    }
                }
            }
        } else {
            assert(bytes_view(chunk) =~= Seq::<u8>::empty());
            assert(old(self)@ + bytes_view(chunk) =~= old(self)@);
        }
    }

    /// The first chunk, or an empty slice when the queue is empty.
    pub fn chunk(&self) -> (s: &[u8])
        requires
            self.wf(),
        ensures
            s@.len() == self.front_len(),
            s@ == self@.take(s@.len() as int),
    {
        if self.chunks.len() == 0 {
            let e: &[u8] = &[];
            assert(e@ =~= self@.take(0));
            e
        } else {
            let s = bytes_as_slice(&self.chunks[0]);
            proof {
                assert(self@ == bytes_view(self.chunks@[0]) + flatten(self.chunks@.drop_first()));
                assert(self@.take(s@.len() as int) =~= s@);
            }
            s
        }
    }

    /// Drops the first `cnt` bytes.
    pub fn advance(&mut self, cnt: usize)
        requires
            old(self).wf(),
            cnt <= old(self)@.len(),
        ensures
            final(self).wf(),
            final(self)@ == old(self)@.skip(cnt as int),
            final(self).chunk_count() <= old(self).chunk_count(),
    {
        let ghost start = self@;
        let ghost total = cnt;
        self.len = self.len - cnt;
        let mut cnt = cnt;
        while cnt > 0
            invariant
                cnt <= flatten(self.chunks@).len(),
                flatten(self.chunks@).skip(cnt as int) == start.skip(cnt as int + (start.len() - flatten(self.chunks@).len())),
                start.len() - flatten(self.chunks@).len() + self.len + cnt == start.len(),
                flatten(self.chunks@).len() <= start.len(),
                self.len == start.len() - total,
                forall|i: int| 0 <= i < self.chunks@.len() ==> bytes_view(#[trigger] self.chunks@[i]).len() > 0,
                self.chunks@.len() <= old(self).chunks@.len(),
            decreases cnt,
        {
            let ghost before = self.chunks@;
            let ghost fb = flatten(before);
            assert(before.len() > 0);
            let mut chunk = self.chunks.pop_front().unwrap();
            proof {
                assert(before.drop_first() =~= self.chunks@);
                assert(fb == bytes_view(chunk) + flatten(self.chunks@));
            }
            let n = bytes_len(&chunk);
            if cnt >= n {
                proof {
                    assert(fb.skip(n as int) =~= flatten(self.chunks@));
                    assert(flatten(self.chunks@).skip((cnt - n) as int) =~= fb.skip(cnt as int));
                    assert forall|i: int| 0 <= i < self.chunks@.len() implies bytes_view(
                        #[trigger] self.chunks@[i],
                    ).len() > 0 by {
                        assert(self.chunks@[i] == before[i + 1]);
                    }
                }
                cnt = cnt - n;
            } else {
                let ghost whole = bytes_view(chunk);
                bytes_advance(&mut chunk, cnt);
                self.chunks.push_front(chunk);
                proof {
                    lemma_flatten_cons(chunk, before.drop_first());
                    assert(flatten(self.chunks@) =~= fb.skip(cnt as int));
                    assert forall|i: int| 0 <= i < self.chunks@.len() implies bytes_view(
                        #[trigger] self.chunks@[i],
                    ).len() > 0 by {
                        if i > 0 {
                            assert(self.chunks@[i] == before[i]);
                        }
                    }
                    assert(flatten(self.chunks@).skip(0) =~= flatten(self.chunks@));
                }
                cnt = 0;
            }
        }
        assert(flatten(self.chunks@).skip(0) =~= flatten(self.chunks@));
        assert(self.len == start.len() - total);
        assert(flatten(self.chunks@).len() == self.len);
        assert(flatten(self.chunks@) == start.skip(total as int));
    }

    /// The byte at position `i`, without consuming anything.
    pub fn get(&self, i: usize) -> (v: u8)
        requires
            self.wf(),
            i < self@.len(),
        ensures
            v == self@[i as int],
    {
        let mut k: usize = 0;
        let mut off: usize = i;
        proof {
            assert(self.chunks@.skip(0) =~= self.chunks@);
        }
        while k < self.chunks.len()
            invariant
                self.wf(),
                k <= self.chunks@.len(),
                off < flatten(self.chunks@.skip(k as int)).len(),
                flatten(self.chunks@.skip(k as int))[off as int] == self@[i as int],
            decreases self.chunks@.len() - k,
        {
            let ghost rest = self.chunks@.skip(k as int);
            proof {
                assert(rest.drop_first() =~= self.chunks@.skip(k + 1));
                assert(rest[0] == self.chunks@[k as int]);
            }
            let n = bytes_len(&self.chunks[k]);
            if off < n {
                return bytes_get(&self.chunks[k], off);
            }
            off = off - n;
            k = k + 1;
        }
        proof {
            assert(self.chunks@.skip(k as int) =~= Seq::<bytes::Bytes>::empty());
        }
        0
    }

    /// The `n`-byte big-endian number at position `at`, without consuming
    /// anything.
    pub fn peek_be(&self, at: usize, n: usize) -> (v: u64)
        requires
            self.wf(),
            n <= 8,
            at + n <= self@.len(),
        ensures
            v == be_value(self@.subrange(at as int, at + n)),
    {
        let ghost s = self@.subrange(at as int, at + n);
        let mut v: u64 = 0;
        let mut i: usize = 0;
        while i < n
            invariant
                self.wf(),
                i <= n <= 8,
                at + n <= self@.len(),
                s == self@.subrange(at as int, at + n),
                v == be_value(s.take(i as int)),
            decreases n - i,
        {
            let b = self.get(at + i);
            proof {
                lemma_be_value_bound(s.take(i as int));
                crate::endian::lemma_pow256_mono(i as nat, 7);
                assert(pow256(7) == 72057594037927936) by {
                    reveal_with_fuel(pow256, 8);
                }
                assert(s.take(i + 1).drop_last() =~= s.take(i as int));
                assert(s.take(i + 1).last() == b);
            }
            v = v * 256 + b as u64;
            i = i + 1;
        }
        proof {
            assert(s.take(n as int) =~= s);
        }
        v
    }

    /// Reads one byte.
    pub fn get_u8(&mut self) -> (v: u8)
        requires
            old(self).wf(),
            old(self)@.len() >= 1,
        ensures
            final(self).wf(),
            v == old(self)@[0],
            final(self)@ == old(self)@.skip(1),
            final(self).chunk_count() <= old(self).chunk_count(),
    {
        proof {
            self.lemma_front_len();
            assert(self@ == bytes_view(self.chunks@[0]) + flatten(self.chunks@.drop_first()));
        }
        let v = bytes_get(&self.chunks[0], 0);
        self.advance(1);
        v
    }

    /// Reads an `n`-byte big-endian number.
    pub fn get_be(&mut self, n: usize) -> (v: u64)
        requires
            old(self).wf(),
            n <= 8,
            old(self)@.len() >= n,
        ensures
            final(self).wf(),
            v == be_value(old(self)@.take(n as int)),
            final(self)@ == old(self)@.skip(n as int),
            final(self).chunk_count() <= old(self).chunk_count(),
    {
        let ghost start = self@;
        let mut v: u64 = 0;
        let mut i: usize = 0;
        while i < n
            invariant
                self.wf(),
                self.chunk_count() <= old(self).chunk_count(),
                i <= n <= 8,
                start.len() >= n,
                self@ == start.skip(i as int),
                v == be_value(start.take(i as int)),
            decreases n - i,
        {
            let b = self.get_u8();
            proof {
                lemma_be_value_bound(start.take(i as int));
                crate::endian::lemma_pow256_mono(i as nat, 7);
                assert(pow256(7) == 72057594037927936) by {
                    reveal_with_fuel(pow256, 8);
                }
                assert(start.take(i + 1).drop_last() =~= start.take(i as int));
                assert(start.skip(i as int)[0] == start[i as int]);
                assert(start.skip(i as int).skip(1) =~= start.skip(i + 1));
            }
            v = v * 256 + b as u64;
            i = i + 1;
        }
        v
    }

    /// Takes the first `len` bytes out of the queue.
    pub fn copy_to_bytes(&mut self, len: usize) -> (out: bytes::Bytes)
        requires
            old(self).wf(),
            len <= old(self)@.len(),
        ensures
            final(self).wf(),
            bytes_view(out) == old(self)@.take(len as int),
            final(self)@ == old(self)@.skip(len as int),
            final(self).chunk_count() <= old(self).chunk_count(),
    {
        if len == 0 {
            assert(self@.skip(0) =~= self@);
            assert(self@.take(0) =~= Seq::<u8>::empty());
            return bytes_new();
        }
        proof {
            self.lemma_front_len();
        }
        let ghost before = self.chunks@;
        let ghost fb = self@;
        if bytes_len(&self.chunks[0]) >= len {
            let mut front = self.chunks.pop_front().unwrap();
            proof {
                assert(before.drop_first() =~= self.chunks@);
                assert(fb == bytes_view(front) + flatten(self.chunks@));
            }
            let out = bytes_split_to(&mut front, len);
            self.len = self.len - len;
            if bytes_len(&front) > 0 {
                self.chunks.push_front(front);
                proof {
                    lemma_flatten_cons(front, before.drop_first());
                    assert(flatten(self.chunks@) =~= fb.skip(len as int));
                    assert forall|i: int| 0 <= i < self.chunks@.len() implies bytes_view(
                        #[trigger] self.chunks@[i],
                    ).len() > 0 by {
                        if i > 0 {
                            assert(self.chunks@[i] == before[i]);
                        }
                    }
                }
            } else {
                proof {
                    assert(flatten(self.chunks@) =~= fb.skip(len as int));
                    assert forall|i: int| 0 <= i < self.chunks@.len() implies bytes_view(
                        #[trigger] self.chunks@[i],
                    ).len() > 0 by {
                        assert(self.chunks@[i] == before[i + 1]);
                    }
                }
            }
            assert(bytes_view(out) =~= fb.take(len as int));
            out
        } else {
            let mut v: Vec<u8> = Vec::new();
            let mut i: usize = 0;
            while i < len
                invariant
                    self.wf(),
                    self.chunk_count() <= old(self).chunk_count(),
                    i <= len <= fb.len(),
                    self@ == fb.skip(i as int),
                    v@ == fb.take(i as int),
                decreases len - i,
            {
                let b = self.get_u8();
                proof {
                    assert(fb.skip(i as int)[0] == fb[i as int]);
                    assert(fb.skip(i as int).skip(1) =~= fb.skip(i + 1));
                    assert(fb.take(i + 1) =~= fb.take(i as int).push(fb[i as int]));
                }
                v.push(b);
                i = i + 1;
            }
            bytes_from_vec(v)
        }
    }
}

} // verus!
