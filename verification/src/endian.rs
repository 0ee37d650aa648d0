//! Big-endian encoding of unsigned integers, as used by every wire format of
//! the library.

use vstd::prelude::*;

verus! {

/// `256` raised to the power `n`.
pub open spec fn pow256(n: nat) -> nat
    decreases n,
{
    if n == 0 {
        1
    } else {
        256 * pow256((n - 1) as nat)
    }
}

/// The number that the bytes `s` denote, most significant byte first.
pub open spec fn be_value(s: Seq<u8>) -> nat
    decreases s.len(),
{
    if s.len() == 0 {
        0
    } else {
        be_value(s.drop_last()) * 256 + s.last() as nat
    }
}

/// The `n` lowest bytes of `v`, most significant byte first.
pub open spec fn be_bytes(v: nat, n: nat) -> Seq<u8>
    decreases n,
{
    if n == 0 {
        seq![]
    } else {
        be_bytes(v / 256, (n - 1) as nat).push((v % 256) as u8)
    }
}

pub proof fn lemma_pow256_positive(n: nat)
    ensures
        pow256(n) >= 1,
    decreases n,
{
    if n > 0 {
        lemma_pow256_positive((n - 1) as nat);
    }
}

pub proof fn lemma_be_bytes_len(v: nat, n: nat)
    ensures
        be_bytes(v, n).len() == n,
    decreases n,
{
    if n > 0 {
        lemma_be_bytes_len(v / 256, (n - 1) as nat);
    }
}

/// The value of `n` bytes is below `256^n`.
pub proof fn lemma_be_value_bound(s: Seq<u8>)
    ensures
        be_value(s) < pow256(s.len()),
    decreases s.len(),
{
    if s.len() > 0 {
        lemma_be_value_bound(s.drop_last());
        let a = be_value(s.drop_last());
        let p = pow256((s.len() - 1) as nat);
        assert(a * 256 + s.last() < p * 256) by (nonlinear_arith)
            requires
                a < p,
                s.last() < 256,
        ;
    }
}

/// Decoding the encoding of `v` in `n` bytes gives back `v` when it fits.
pub proof fn lemma_be_roundtrip(v: nat, n: nat)
    requires
        v < pow256(n),
    ensures
        be_value(be_bytes(v, n)) == v,
    decreases n,
{
    if n > 0 {
        let q = v / 256;
        assert(q < pow256((n - 1) as nat)) by (nonlinear_arith)
            requires
                v < 256 * pow256((n - 1) as nat),
                q == v / 256,
        ;
        lemma_be_roundtrip(q, (n - 1) as nat);
        let s = be_bytes(v, n);
        assert(s.drop_last() =~= be_bytes(q, (n - 1) as nat));
        assert(v == q * 256 + v % 256) by (nonlinear_arith)
            requires
                q == v / 256,
        ;
    } else {
        assert(v == 0);
    }
}

/// Decoding `s` and encoding the value in as many bytes as `s` has gives
/// `s` back: `be_encode` undoes `be_decode`.
pub proof fn lemma_be_bytes_of_value(s: Seq<u8>)
    ensures
        be_bytes(be_value(s), s.len()) == s,
    decreases s.len(),
{
    if s.len() > 0 {
        let a = be_value(s.drop_last());
        let v = be_value(s);
        assert(v / 256 == a && v % 256 == s.last()) by (nonlinear_arith)
            requires
                v == a * 256 + s.last(),
                s.last() < 256,
        ;
        lemma_be_bytes_of_value(s.drop_last());
        assert(be_bytes(v, s.len()) =~= s.drop_last().push(s.last()));
        assert(s.drop_last().push(s.last()) =~= s);
    }
}

/// Reads the big-endian number held in `s`.
pub fn be_decode(s: &[u8]) -> (v: u64)
    requires
        s@.len() <= 8,
    ensures
        v == be_value(s@),
{
    let mut v: u64 = 0;
    let mut i: usize = 0;
    while i < s.len()
        invariant
            i <= s@.len() <= 8,
            v == be_value(s@.take(i as int)),
        decreases s@.len() - i,
    {
        proof {
            lemma_be_value_bound(s@.take(i as int));
            assert(pow256(i as nat) <= pow256(7)) by {
                lemma_pow256_mono(i as nat, 7);
            }
            assert(pow256(7) == 72057594037927936) by {
                reveal_with_fuel(pow256, 8);
            }
            assert(s@.take(i + 1).drop_last() =~= s@.take(i as int));
        }
        v = v * 256 + s[i] as u64;
        i = i + 1;
    }
    assert(s@.take(s@.len() as int) =~= s@);
    v
}

pub proof fn lemma_pow256_mono(a: nat, b: nat)
    requires
        a <= b,
    ensures
        pow256(a) <= pow256(b),
    decreases b,
{
    if a < b {
        lemma_pow256_mono(a, (b - 1) as nat);
        lemma_pow256_positive((b - 1) as nat);
    }
}

/// Appends the `n` lowest bytes of `v` to `out`, most significant first.
pub fn be_encode(v: u64, n: usize, out: &mut Vec<u8>)
    requires
        n <= 8,
    ensures
        final(out)@ == old(out)@ + be_bytes(v as nat, n as nat),
{
    let mut digits: Vec<u8> = Vec::new();
    let mut k: usize = 0;
    while k < n
        invariant
            k <= n,
            digits@.len() == k,
        decreases n - k,
    {
        digits.push(0u8);
        k = k + 1;
    }
    let mut x: u64 = v;
    let mut i: usize = 0;
    while i < n
        invariant
            i <= n <= 8,
            digits@.len() == n,
            be_bytes(v as nat, n as nat) =~= be_bytes(x as nat, (n - i) as nat) + digits@.subrange(
                (n - i) as int,
                n as int,
            ),
        decreases n - i,
    {
        let ghost old_digits = digits@;
        let ghost m = (n - i) as nat;
        digits.set(n - 1 - i, (x % 256) as u8);
        proof {
            assert(be_bytes(x as nat, m) == be_bytes((x / 256) as nat, (m - 1) as nat).push(
                (x % 256) as u8,
            ));
            assert(digits@.subrange((n - i - 1) as int, n as int) =~= seq![(x % 256) as u8]
                + old_digits.subrange((n - i) as int, n as int));
        }
        x = x / 256;
        i = i + 1;
    }
    assert(digits@.subrange(0, n as int) =~= digits@);
    let mut j: usize = 0;
    let ghost start = out@;
    while j < n
        invariant
            j <= n,
            digits@.len() == n,
            out@ =~= start + digits@.take(j as int),
        decreases n - j,
    {
        out.push(digits[j]);
        j = j + 1;
        assert(digits@.take(j as int) =~= digits@.take(j - 1).push(digits@[j - 1]));
    }
    assert(digits@.take(n as int) =~= digits@);
}

} // verus!
