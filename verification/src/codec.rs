//! Canonical binary codec for proof records.
//!
//! Field order is fixed: root, index (eight little-endian bytes), leaf, then
//! the siblings in level order, 32 bytes each. The number of siblings is
//! implied by the depth both ends agree on, so the decoder takes that depth
//! as a parameter; a buffer with bytes left over after a full record is
//! rejected rather than silently accepted.

use vstd::prelude::*;

use crate::bytes::lemma_le8_round_trip;
use crate::bytes::push32;
use crate::bytes::push_u64_le;
use crate::bytes::read32;
use crate::bytes::read_u64_le;
use crate::bytes::spec_from_le8;
use crate::bytes::spec_le8;
use crate::record::MerkleProof;
use crate::record::ProofModel;

verus! {

broadcast use vstd::array::group_array_axioms;

/// The failures the decoder distinguishes.
#[derive(Clone, Copy, Debug, PartialEq, Eq, Structural)]
pub enum DecodeError {
    /// Fewer bytes than a full record of the expected depth.
    Truncated,
    /// More bytes than a full record of the expected depth.
    TrailingBytes,
    /// The stored index does not fit this machine's word.
    IndexTooLarge,
}

/// Concatenation of a sequence of byte blocks, in order.
pub open spec fn spec_cat(s: Seq<Seq<u8>>) -> Seq<u8>
    decreases s.len(),
{
    if s.len() == 0 {
        Seq::empty()
    } else {
        spec_cat(s.drop_last()) + s.last()
    }
}

/// When every block is 32 bytes, the concatenation is 32 bytes per block.
pub proof fn lemma_cat_len(s: Seq<Seq<u8>>)
    requires
        forall|i: int| 0 <= i < s.len() ==> (#[trigger] s[i]).len() == 32,
    ensures
        spec_cat(s).len() == 32 * s.len(),
    decreases s.len(),
{
    if s.len() > 0 {
        lemma_cat_len(s.drop_last());
    }
}

/// Block `k` reads back out of the concatenation at offset `32 * k`.
pub proof fn lemma_cat_block(s: Seq<Seq<u8>>, k: int)
    requires
        forall|i: int| 0 <= i < s.len() ==> (#[trigger] s[i]).len() == 32,
        0 <= k < s.len(),
    ensures
        spec_cat(s).subrange(32 * k, 32 * k + 32) == s[k],
    decreases s.len(),
{
    lemma_cat_len(s);
    lemma_cat_len(s.drop_last());
    if k == s.len() - 1 {
        assert(spec_cat(s).subrange(32 * k, 32 * k + 32) =~= s[k]);
    } else {
        lemma_cat_block(s.drop_last(), k);
        assert(spec_cat(s).subrange(32 * k, 32 * k + 32) =~= spec_cat(s.drop_last()).subrange(
            32 * k,
            32 * k + 32,
        ));
    }
}

/// The canonical encoding of a proof record.
pub open spec fn spec_encode(v: ProofModel) -> Seq<u8> {
    v.root + spec_le8(v.index as u64) + v.leaf + spec_cat(v.siblings)
}

/// What a byte sequence decodes to at the given depth, or why it fails.
pub open spec fn spec_decode(bytes: Seq<u8>, depth: nat) -> Result<ProofModel, DecodeError> {
    if bytes.len() < 72 + 32 * depth {
        Err(DecodeError::Truncated)
    } else if bytes.len() > 72 + 32 * depth {
        Err(DecodeError::TrailingBytes)
    } else if spec_from_le8(bytes.subrange(32, 40)) > usize::MAX {
        Err(DecodeError::IndexTooLarge)
    } else {
        Ok(
            ProofModel {
                root: bytes.subrange(0, 32),
                index: spec_from_le8(bytes.subrange(32, 40)) as nat,
                leaf: bytes.subrange(40, 72),
                siblings: Seq::new(depth, |k: int| bytes.subrange(72 + 32 * k, 104 + 32 * k)),
            },
        )
    }
}

/// Serializes a proof record into its canonical byte form. Deterministic:
/// equal records give equal bytes.
pub fn save_proof(p: &MerkleProof) -> (r: Vec<u8>)
    ensures
        r@ == spec_encode(p@),
{
    let mut out: Vec<u8> = Vec::new();
    push32(&mut out, &p.root);
    push_u64_le(&mut out, p.index as u64);
    push32(&mut out, &p.leaf);
    let ghost head = out@;
    proof {
        assert(head =~= p@.root + spec_le8(p@.index as u64) + p@.leaf);
        assert(p@.siblings.take(0) =~= Seq::<Seq<u8>>::empty());
        assert(head + spec_cat(p@.siblings.take(0)) =~= head);
    }
    let n = p.siblings.len();
    let mut k: usize = 0;
    while k < n
        invariant
            n == p.siblings@.len(),
            0 <= k <= n,
            head == p@.root + spec_le8(p@.index as u64) + p@.leaf,
            out@ == head + spec_cat(p@.siblings.take(k as int)),
        decreases n - k,
    {
        let b: [u8; 32] = p.siblings[k];
        push32(&mut out, &b);
        proof {
            let dv = p@.siblings;
            assert(b.deep_view() =~= b@);
            assert(dv.take(k as int + 1).drop_last() =~= dv.take(k as int));
            assert(dv.take(k as int + 1).last() == dv[k as int]);
            assert(out@ =~= head + spec_cat(dv.take(k as int + 1)));
        }
        k += 1;
    }
    proof {
        assert(p@.siblings.take(n as int) =~= p@.siblings);
        assert(out@ =~= spec_encode(p@));
    }
    out
}

/// Parses the canonical byte form back into a proof record, expecting a
/// record of depth `depth`. Fails on short buffers, on trailing bytes, and
/// on an index this machine's word cannot hold.
pub fn load_proof(bytes: &[u8], depth: usize) -> (r: Result<MerkleProof, DecodeError>)
    ensures
        match r {
            Ok(p) => spec_decode(bytes@, depth as nat) == Ok::<ProofModel, DecodeError>(p@),
            Err(e) => spec_decode(bytes@, depth as nat) == Err::<ProofModel, DecodeError>(e),
        },
{
    let n = bytes.len();
    let body = match depth.checked_mul(32) {
        Some(m) => m,
        None => {
            return Err(DecodeError::Truncated);
        },
    };
    let total = match body.checked_add(72) {
        Some(t) => t,
        None => {
            return Err(DecodeError::Truncated);
        },
    };
    if n < total {
        return Err(DecodeError::Truncated);
    }
    if n > total {
        return Err(DecodeError::TrailingBytes);
    }
    let root = read32(bytes, 0);
    let x = read_u64_le(bytes, 32);
    if x > usize::MAX as u64 {
        return Err(DecodeError::IndexTooLarge);
    }
    let index: usize = x as usize;
    let leaf = read32(bytes, 40);
    let mut siblings: Vec<[u8; 32]> = Vec::new();
    let mut k: usize = 0;
    while k < depth
        invariant
            n == bytes@.len(),
            n == 72 + 32 * depth,
            0 <= k <= depth,
            siblings@.len() == k,
            forall|kk: int|
                0 <= kk < k ==> (#[trigger] siblings@[kk])@ == bytes@.subrange(
                    72 + 32 * kk,
                    104 + 32 * kk,
                ),
        decreases depth - k,
    {
        let s = read32(bytes, 72 + 32 * k);
        siblings.push(s);
        k += 1;
    }
    let p = MerkleProof { root, index, leaf, siblings };
    proof {
        let ghost v = ProofModel {
            root: bytes@.subrange(0, 32),
            index: spec_from_le8(bytes@.subrange(32, 40)) as nat,
            leaf: bytes@.subrange(40, 72),
            siblings: Seq::new(
                depth as nat,
                |kk: int| bytes@.subrange(72 + 32 * kk, 104 + 32 * kk),
            ),
        };
        assert forall|kk: int| 0 <= kk < depth implies p@.siblings[kk] == v.siblings[kk] by {
            assert(p.siblings@[kk].deep_view() =~= p.siblings@[kk]@);
        }
        assert(p@.siblings =~= v.siblings);
        assert(p@ =~~= v);
        assert(spec_decode(bytes@, depth as nat) == Ok::<ProofModel, DecodeError>(v));
    }
    Ok(p)
}

/// Law: decoding an encoding at the record's own depth gives the record
/// back unchanged, for every well-formed record.
pub proof fn lemma_encode_decode(v: ProofModel)
    requires
        v.wf(),
    ensures
        spec_decode(spec_encode(v), v.siblings.len()) == Ok::<ProofModel, DecodeError>(v),
{
    let b = spec_encode(v);
    let depth = v.siblings.len();
    lemma_cat_len(v.siblings);
    lemma_le8_round_trip(v.index as u64);
    assert(b.len() == 72 + 32 * depth);
    assert(b.subrange(0, 32) =~= v.root);
    assert(b.subrange(32, 40) =~= spec_le8(v.index as u64));
    assert(spec_from_le8(b.subrange(32, 40)) == v.index as u64);
    assert(b.subrange(40, 72) =~= v.leaf);
    let w = ProofModel {
        root: b.subrange(0, 32),
        index: spec_from_le8(b.subrange(32, 40)) as nat,
        leaf: b.subrange(40, 72),
        siblings: Seq::new(depth, |k: int| b.subrange(72 + 32 * k, 104 + 32 * k)),
    };
    assert forall|k: int| 0 <= k < depth implies w.siblings[k] == v.siblings[k] by {
        lemma_cat_block(v.siblings, k);
        assert(b.subrange(72 + 32 * k, 104 + 32 * k) =~= spec_cat(v.siblings).subrange(
            32 * k,
            32 * k + 32,
        ));
    }
    assert(w.siblings =~= v.siblings);
    assert(w =~~= v);
}

/// Law: a buffer shorter than the record's full encoding — any strict
/// prefix among them — fails to decode at the record's depth, and fails
/// with the truncation error.
pub proof fn lemma_truncated_decode_fails(v: ProofModel, bytes: Seq<u8>)
    requires
        v.wf(),
        bytes.len() < spec_encode(v).len(),
    ensures
        spec_decode(bytes, v.siblings.len()) == Err::<ProofModel, DecodeError>(
            DecodeError::Truncated,
        ),
{
    lemma_cat_len(v.siblings);
}

} // verus!
