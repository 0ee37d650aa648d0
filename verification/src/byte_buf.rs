//! The byte containers of the `bytes` crate, as the library sees them: a
//! sequence of bytes named by `bytes_view` and `bytes_mut_view`, and the few
//! operations on them that the library calls.

use vstd::prelude::*;

verus! {

#[verifier::external_type_specification]
#[verifier::external_body]
pub struct ExBytes(bytes::Bytes);

#[verifier::external_type_specification]
#[verifier::external_body]
pub struct ExBytesMut(bytes::BytesMut);

/// The bytes that a `Bytes` holds.
pub uninterp spec fn bytes_view(b: bytes::Bytes) -> Seq<u8>;

/// The bytes that a `BytesMut` holds.
pub uninterp spec fn bytes_mut_view(b: bytes::BytesMut) -> Seq<u8>;

/// `Bytes::new`: an empty buffer.
#[verifier::external_body]
pub(crate) fn bytes_new() -> (b: bytes::Bytes)
    ensures
        bytes_view(b) == Seq::<u8>::empty(),
{
    bytes::Bytes::new()
}

/// `Bytes::from(Vec<u8>)`: a buffer holding the vector's bytes.
#[verifier::external_body]
pub(crate) fn bytes_from_vec(v: Vec<u8>) -> (b: bytes::Bytes)
    ensures
        bytes_view(b) == v@,
{
    bytes::Bytes::from(v)
}

/// `Bytes::len`: the number of bytes held.
#[verifier::external_body]
pub(crate) fn bytes_len(b: &bytes::Bytes) -> (n: usize)
    ensures
        n == bytes_view(*b).len(),
{
    b.len()
}


/// Reads one byte of a `Bytes` through its slice view (`b[i]`).
#[verifier::external_body]
pub(crate) fn bytes_get(b: &bytes::Bytes, i: usize) -> (v: u8)
    requires
        i < bytes_view(*b).len(),
    ensures
        v == bytes_view(*b)[i as int],
{
    b[i]
}

/// `Bytes::split_to`: the first `at` bytes leave `b` and are returned.
/// The crate panics when `at` exceeds the length, which `requires` rules out.
#[verifier::external_body]
pub(crate) fn bytes_split_to(b: &mut bytes::Bytes, at: usize) -> (head: bytes::Bytes)
    requires
        at <= bytes_view(*old(b)).len(),
    ensures
        bytes_view(head) == bytes_view(*old(b)).take(at as int),
        bytes_view(*final(b)) == bytes_view(*old(b)).skip(at as int),
{
    b.split_to(at)
}

/// `Buf::advance` on `Bytes`: drops the first `n` bytes.
/// The crate panics when `n` exceeds the length, which `requires` rules out.
#[verifier::external_body]
pub(crate) fn bytes_advance(b: &mut bytes::Bytes, n: usize)
    requires
        n <= bytes_view(*old(b)).len(),
    ensures
        bytes_view(*final(b)) == bytes_view(*old(b)).skip(n as int),
{
    bytes::Buf::advance(b, n)
}

/// `BytesMut::len`: the number of bytes held.
#[verifier::external_body]
pub(crate) fn bytes_mut_len(b: &bytes::BytesMut) -> (n: usize)
    ensures
        n == bytes_mut_view(*b).len(),
{
    b.len()
}

/// `BufMut::remaining_mut` on `BytesMut`, which the crate computes as
/// `isize::MAX - len`.
#[verifier::external_body]
pub(crate) fn bytes_mut_remaining_mut(b: &bytes::BytesMut) -> (n: usize)
    ensures
        n == isize::MAX - bytes_mut_view(*b).len(),
{
    bytes::BufMut::remaining_mut(b)
}

/// `BufMut::put_slice` on `BytesMut`: appends `src`.
/// The crate panics when `src` does not fit in `remaining_mut`, which
/// `requires` rules out.
#[verifier::external_body]
pub(crate) fn bytes_mut_put_slice(b: &mut bytes::BytesMut, src: &[u8])
    requires
        bytes_mut_view(*old(b)).len() + src@.len() <= isize::MAX,
    ensures
        bytes_mut_view(*final(b)) == bytes_mut_view(*old(b)) + src@,
{
    bytes::BufMut::put_slice(b, src)
}

/// `Buf::copy_to_slice` on `BytesMut`: fills `dst` with the first bytes and
/// drops them. The crate panics when fewer bytes remain than `dst` holds,
/// which `requires` rules out.
#[verifier::external_body]
pub(crate) fn bytes_mut_copy_to_slice(b: &mut bytes::BytesMut, dst: &mut [u8])
    requires
        old(dst)@.len() <= bytes_mut_view(*old(b)).len(),
    ensures
        final(dst)@ == bytes_mut_view(*old(b)).take(old(dst)@.len() as int),
        bytes_mut_view(*final(b)) == bytes_mut_view(*old(b)).skip(old(dst)@.len() as int),
{
    bytes::Buf::copy_to_slice(b, dst)
}

/// `Buf::copy_to_slice` on `Bytes`: fills `dst` with the first bytes and
/// drops them. The crate panics when fewer bytes remain than `dst` holds,
/// which `requires` rules out.
#[verifier::external_body]
pub(crate) fn bytes_copy_to_slice(b: &mut bytes::Bytes, dst: &mut [u8])
    requires
        old(dst)@.len() <= bytes_view(*old(b)).len(),
    ensures
        final(dst)@ == bytes_view(*old(b)).take(old(dst)@.len() as int),
        bytes_view(*final(b)) == bytes_view(*old(b)).skip(old(dst)@.len() as int),
{
    bytes::Buf::copy_to_slice(b, dst)
}

} // verus!

verus! {

/// The slice view of a `Bytes` (`&b[..]`).
#[verifier::external_body]
pub(crate) fn bytes_as_slice(b: &bytes::Bytes) -> (s: &[u8])
    ensures
        s@ == bytes_view(*b),
{
    &b[..]
}

/// The bytes of the buffers `chunks`, one after the other.
pub open spec fn flatten(chunks: Seq<bytes::Bytes>) -> Seq<u8>
    decreases chunks.len(),
{
    if chunks.len() == 0 {
        Seq::<u8>::empty()
    } else {
        bytes_view(chunks[0]) + flatten(chunks.drop_first())
    }
}

pub proof fn lemma_flatten_push(chunks: Seq<bytes::Bytes>, b: bytes::Bytes)
    ensures
        flatten(chunks.push(b)) == flatten(chunks) + bytes_view(b),
    decreases chunks.len(),
{
    if chunks.len() == 0 {
        assert(chunks.push(b).drop_first() =~= Seq::<bytes::Bytes>::empty());
        assert(flatten(Seq::<bytes::Bytes>::empty()) =~= Seq::<u8>::empty());
        assert(chunks.push(b)[0] == b);
        assert(flatten(chunks.push(b)) =~= bytes_view(b));
        assert(flatten(chunks) =~= Seq::<u8>::empty());
    } else {
        lemma_flatten_push(chunks.drop_first(), b);
        assert(chunks.push(b).drop_first() =~= chunks.drop_first().push(b));
        assert(flatten(chunks.push(b)) =~= flatten(chunks) + bytes_view(b));
    }
}

pub proof fn lemma_flatten_cons(b: bytes::Bytes, chunks: Seq<bytes::Bytes>)
    ensures
        flatten(seq![b] + chunks) == bytes_view(b) + flatten(chunks),
{
    assert((seq![b] + chunks).drop_first() =~= chunks);
}

} // verus!
