//! Big-endian byte encodings and fixed-size byte-array helpers used by the
//! content-hashing layer.

use vstd::prelude::*;

verus! {

/// The eight big-endian bytes of a 64-bit integer, most significant first.
/// Opaque: proofs treat the encoding as a symbol and only `push_u64_be`
/// looks inside.
#[verifier::opaque]
pub open spec fn u64_be_bytes(x: u64) -> Seq<u8> {
    seq![
        (x / 0x100000000000000) as u8,
        ((x / 0x1000000000000) % 256) as u8,
        ((x / 0x10000000000) % 256) as u8,
        ((x / 0x100000000) % 256) as u8,
        ((x / 0x1000000) % 256) as u8,
        ((x / 0x10000) % 256) as u8,
        ((x / 0x100) % 256) as u8,
        (x % 256) as u8,
    ]
}

/// Appends the big-endian encoding of `x` to `buf`.
pub fn push_u64_be(buf: &mut Vec<u8>, x: u64)
    ensures
        final(buf)@ == old(buf)@ + u64_be_bytes(x),
{
    buf.push((x / 0x100000000000000) as u8);
    buf.push(((x / 0x1000000000000) % 256) as u8);
    buf.push(((x / 0x10000000000) % 256) as u8);
    buf.push(((x / 0x100000000) % 256) as u8);
    buf.push(((x / 0x1000000) % 256) as u8);
    buf.push(((x / 0x10000) % 256) as u8);
    buf.push(((x / 0x100) % 256) as u8);
    buf.push((x % 256) as u8);
    proof {
        reveal(u64_be_bytes);
        assert(buf@ =~= old(buf)@ + u64_be_bytes(x));
    }
}

/// Appends the contents of a fixed-size byte array to `buf`.
pub fn push_bytes<const N: usize>(buf: &mut Vec<u8>, a: &[u8; N])
    ensures
        final(buf)@ == old(buf)@ + a@,
{
    let mut i: usize = 0;
    while i < N
        invariant
            i <= N,
            buf@ == old(buf)@ + a@.take(i as int),
        decreases N - i,
    {
        buf.push(a[i]);
        i = i + 1;
        proof {
            assert(buf@ =~= old(buf)@ + a@.take(i as int));
        }
    }
    proof {
        assert(a@.take(N as int) =~= a@);
    }
}

/// Compares two fixed-size byte arrays for element-wise equality.
pub fn bytes_eq<const N: usize>(a: &[u8; N], b: &[u8; N]) -> (r: bool)
    ensures
        r <==> a@ == b@,
{
    let mut i: usize = 0;
    while i < N
        invariant
            i <= N,
            forall|j: int| 0 <= j < i ==> a@[j] == b@[j],
        decreases N - i,
    {
        if a[i] != b[i] {
            return false;
        }
        i = i + 1;
    }
    proof {
        assert(a@ =~= b@);
    }
    true
}

} // verus!
