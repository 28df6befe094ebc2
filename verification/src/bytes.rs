//! Fixed-width byte helpers: little-endian views of machine integers,
//! 32-byte block comparison, concatenation, and block extraction.

use vstd::prelude::*;

verus! {

broadcast use vstd::array::group_array_axioms;

/// The four little-endian bytes of a `u32`.
pub open spec fn spec_le4(x: u32) -> Seq<u8> {
    seq![
        (x & 0xff) as u8,
        ((x >> 8) & 0xff) as u8,
        ((x >> 16) & 0xff) as u8,
        ((x >> 24) & 0xff) as u8,
    ]
}

/// The eight little-endian bytes of a `u64`.
pub open spec fn spec_le8(x: u64) -> Seq<u8> {
    seq![
        (x & 0xff) as u8,
        ((x >> 8) & 0xff) as u8,
        ((x >> 16) & 0xff) as u8,
        ((x >> 24) & 0xff) as u8,
        ((x >> 32) & 0xff) as u8,
        ((x >> 40) & 0xff) as u8,
        ((x >> 48) & 0xff) as u8,
        ((x >> 56) & 0xff) as u8,
    ]
}

/// The `u64` whose little-endian encoding is the eight-byte sequence `s`.
pub open spec fn spec_from_le8(s: Seq<u8>) -> u64
    recommends
        s.len() == 8,
{
    (s[0] as u64) | (s[1] as u64) << 8 | (s[2] as u64) << 16 | (s[3] as u64) << 24
        | (s[4] as u64) << 32 | (s[5] as u64) << 40 | (s[6] as u64) << 48 | (s[7] as u64) << 56
}

/// Reading back the little-endian bytes of `x` yields `x`.
pub proof fn lemma_le8_round_trip(x: u64)
    ensures
        spec_from_le8(spec_le8(x)) == x,
{
    assert((((x & 0xff) as u8) as u64) | ((((x >> 8) & 0xff) as u8) as u64) << 8
        | ((((x >> 16) & 0xff) as u8) as u64) << 16 | ((((x >> 24) & 0xff) as u8) as u64) << 24
        | ((((x >> 32) & 0xff) as u8) as u64) << 32 | ((((x >> 40) & 0xff) as u8) as u64) << 40
        | ((((x >> 48) & 0xff) as u8) as u64) << 48 | ((((x >> 56) & 0xff) as u8) as u64) << 56
        == x) by (bit_vector);
}

/// The four little-endian bytes of `x`, as a vector.
pub fn u32_le_bytes(x: u32) -> (r: Vec<u8>)
    ensures
        r@ == spec_le4(x),
{
    let mut r: Vec<u8> = Vec::new();
    r.push((x & 0xff) as u8);
    r.push(((x >> 8) & 0xff) as u8);
    r.push(((x >> 16) & 0xff) as u8);
    r.push(((x >> 24) & 0xff) as u8);
    proof {
        assert(r@ =~= spec_le4(x));
    }
    r
}

/// Appends the eight little-endian bytes of `x` to `out`.
pub fn push_u64_le(out: &mut Vec<u8>, x: u64)
    ensures
        final(out)@ == old(out)@ + spec_le8(x),
{
    out.push((x & 0xff) as u8);
    out.push(((x >> 8) & 0xff) as u8);
    out.push(((x >> 16) & 0xff) as u8);
    out.push(((x >> 24) & 0xff) as u8);
    out.push(((x >> 32) & 0xff) as u8);
    out.push(((x >> 40) & 0xff) as u8);
    out.push(((x >> 48) & 0xff) as u8);
    out.push(((x >> 56) & 0xff) as u8);
    proof {
        assert(out@ =~= old(out)@ + spec_le8(x));
    }
}

/// Reads the `u64` stored in little-endian order at `bytes[from .. from + 8]`.
pub fn read_u64_le(bytes: &[u8], from: usize) -> (x: u64)
    requires
        from + 8 <= bytes@.len(),
    ensures
        x == spec_from_le8(bytes@.subrange(from as int, from as int + 8)),
{
    let x = (bytes[from] as u64) | (bytes[from + 1] as u64) << 8 | (bytes[from + 2] as u64) << 16
        | (bytes[from + 3] as u64) << 24 | (bytes[from + 4] as u64) << 32
        | (bytes[from + 5] as u64) << 40 | (bytes[from + 6] as u64) << 48
        | (bytes[from + 7] as u64) << 56;
    proof {
        let s = bytes@.subrange(from as int, from as int + 8);
        assert(s[0] == bytes@[from as int]);
        assert(s[1] == bytes@[from as int + 1]);
        assert(s[2] == bytes@[from as int + 2]);
        assert(s[3] == bytes@[from as int + 3]);
        assert(s[4] == bytes@[from as int + 4]);
        assert(s[5] == bytes@[from as int + 5]);
        assert(s[6] == bytes@[from as int + 6]);
        assert(s[7] == bytes@[from as int + 7]);
    }
    x
}

/// Appends a 32-byte block to `out`.
pub fn push32(out: &mut Vec<u8>, b: &[u8; 32])
    ensures
        final(out)@ == old(out)@ + b@,
{
    proof {
        assert(old(out)@ + b@.subrange(0, 0) =~= old(out)@);
    }
    let mut i: usize = 0;
    while i < 32
        invariant
            0 <= i <= 32,
            out@ == old(out)@ + b@.subrange(0, i as int),
        decreases 32 - i,
    {
        let x = b[i];
        out.push(x);
        proof {
            assert(out@ =~= old(out)@ + b@.subrange(0, i as int + 1));
        }
        i += 1;
    }
    proof {
        assert(b@.subrange(0, 32) =~= b@);
    }
}

/// Compares two 32-byte blocks for equality.
pub fn eq32(a: &[u8; 32], b: &[u8; 32]) -> (r: bool)
    ensures
        r == (a@ == b@),
{
    let mut i: usize = 0;
    while i < 32
        invariant
            0 <= i <= 32,
            forall|j: int| 0 <= j < i ==> a@[j] == b@[j],
        decreases 32 - i,
    {
        if a[i] != b[i] {
            return false;
        }
        i += 1;
    }
    proof {
        assert(a@ =~= b@);
    }
    true
}

/// Concatenates two 32-byte blocks, left block first.
pub fn append32(a: &[u8; 32], b: &[u8; 32]) -> (out: [u8; 64])
    ensures
        out@ == a@ + b@,
{
    let mut out: [u8; 64] = [0u8; 64];
    let mut i: usize = 0;
    while i < 32
        invariant
            0 <= i <= 32,
            out@.len() == 64,
            forall|j: int| 0 <= j < i ==> out@[j] == a@[j],
        decreases 32 - i,
    {
        out[i] = a[i];
        i += 1;
    }
    i = 0;
    while i < 32
        invariant
            0 <= i <= 32,
            out@.len() == 64,
            forall|j: int| 0 <= j < 32 ==> out@[j] == a@[j],
            forall|j: int| 0 <= j < i ==> out@[32 + j] == b@[j],
        decreases 32 - i,
    {
        out[32 + i] = b[i];
        i += 1;
    }
    proof {
        assert(out@ =~= a@ + b@);
    }
    out
}

/// Copies the 32-byte block at `bytes[from .. from + 32]` out of a slice.
pub fn read32(bytes: &[u8], from: usize) -> (r: [u8; 32])
    requires
        from + 32 <= bytes@.len(),
    ensures
        r@ == bytes@.subrange(from as int, from as int + 32),
{
    let n = bytes.len();
    let mut out: [u8; 32] = [0u8; 32];
    let mut i: usize = 0;
    while i < 32
        invariant
            from + 32 <= n <= usize::MAX,
            n == bytes@.len(),
            0 <= i <= 32,
            out@.len() == 32,
            forall|j: int| 0 <= j < i ==> out@[j] == bytes@[from + j],
        decreases 32 - i,
    {
        out[i] = bytes[from + i];
        i += 1;
    }
    proof {
        assert(out@ =~= bytes@.subrange(from as int, from as int + 32));
    }
    out
}

} // verus!
