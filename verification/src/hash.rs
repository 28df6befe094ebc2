//! The pluggable hash abstraction and its back ends: SHA-256, the Starknet
//! Poseidon hash, and a degenerate all-zero hash.

use vstd::prelude::*;

verus! {

broadcast use vstd::array::group_array_axioms;

/// A deterministic, total hash primitive with 32-byte output. The tree
/// builder and the verifier are generic over it and must agree on the
/// implementation for a proof to validate. Leaf hashing and pair hashing
/// share this one primitive with no domain tag, so a leaf digest and an
/// interior digest of the same bytes coincide; callers that need to rule
/// such confusions out must separate the domains themselves.
pub trait MerkleHash {
    /// The digest of `input`, as a mathematical function of the bytes.
    spec fn hash_spec(input: Seq<u8>) -> Seq<u8>;

    /// Computes the digest of `input`.
    fn hash(input: &[u8]) -> (r: [u8; 32])
        ensures
            r@ == Self::hash_spec(input@),
    ;
}

/// The SHA-256 digest of a byte sequence. The primitive lives outside this
/// crate, so the digest is named here rather than written out.
pub uninterp spec fn sha256_of(input: Seq<u8>) -> Seq<u8>;

/// Relies on `sha2::Sha256::digest`: the 32-byte SHA-256 digest is a pure
/// function of the input bytes alone.
#[verifier::external_body]
fn sha256_digest(input: &[u8]) -> (r: [u8; 32])
    ensures
        r@ == sha256_of(input@),
{
    <sha2::Sha256 as sha2::Digest>::digest(input).into()
}

/// SHA-256 as the tree's hash primitive.
pub struct Sha256Hasher;

impl MerkleHash for Sha256Hasher {
    open spec fn hash_spec(input: Seq<u8>) -> Seq<u8> {
        sha256_of(input)
    }

    fn hash(input: &[u8]) -> (r: [u8; 32]) {
        sha256_digest(input)
    }
}

/// The placeholder hash: every input maps to the zero block. Useful only to
/// exercise the tree machinery without a real primitive.
impl MerkleHash for () {
    open spec fn hash_spec(input: Seq<u8>) -> Seq<u8> {
        Seq::new(32, |i: int| 0u8)
    }

    fn hash(input: &[u8]) -> (r: [u8; 32]) {
        let r = [0u8; 32];
        proof {
            assert(r@ =~= Seq::new(32, |i: int| 0u8));
        }
        r
    }
}

/// The Starknet Poseidon digest of a sequence of byte blocks. The permutation
/// lives outside this crate, so the digest is named rather than written out.
pub uninterp spec fn poseidon_of(blocks: Seq<Seq<u8>>) -> Seq<u8>;

/// Relies on `starknet_crypto::poseidon_hash_many`, with
/// `Felt::from_bytes_be_slice` converting each block in and `Felt::to_bytes_be`
/// converting the digest out: the result is a pure function of the block
/// sequence alone.
#[verifier::external_body]
fn poseidon_digest(blocks: &Vec<Vec<u8>>) -> (r: [u8; 32])
    ensures
        r@ == poseidon_of(blocks.deep_view()),
{
    let felts: Vec<starknet_crypto::Felt> = blocks
        .iter()
        .map(|b| starknet_crypto::Felt::from_bytes_be_slice(b))
        .collect();
    starknet_crypto::poseidon_hash_many(&felts).to_bytes_be()
}

/// Splits a byte sequence into 31-byte blocks, the last possibly shorter.
/// Each block is short enough to name a distinct field element, so the split
/// loses no information.
pub open spec fn spec_chunks31(s: Seq<u8>) -> Seq<Seq<u8>>
    decreases s.len(),
{
    if s.len() == 0 {
        Seq::empty()
    } else if s.len() <= 31 {
        seq![s]
    } else {
        seq![s.take(31)] + spec_chunks31(s.skip(31))
    }
}

fn chunks31(input: &[u8]) -> (blocks: Vec<Vec<u8>>)
    ensures
        blocks.deep_view() == spec_chunks31(input@),
{
    let n = input.len();
    let mut blocks: Vec<Vec<u8>> = Vec::new();
    let mut pos: usize = 0;
    proof {
        assert(input@.skip(0) =~= input@);
    }
    while pos < n
        invariant
            n == input@.len(),
            0 <= pos <= n,
            spec_chunks31(input@) == blocks.deep_view() + spec_chunks31(
                input@.skip(pos as int),
            ),
        decreases n - pos,
    {
        let end = if n - pos > 31 {
            pos + 31
        } else {
            n
        };
        let mut block: Vec<u8> = Vec::new();
        let mut i: usize = pos;
        while i < end
            invariant
                pos <= i <= end <= n,
                n == input@.len(),
                block@ == input@.subrange(pos as int, i as int),
            decreases end - i,
        {
            let b = input[i];
            block.push(b);
            proof {
                assert(block@ =~= input@.subrange(pos as int, i as int + 1));
            }
            i += 1;
        }
        let ghost prev_dv = blocks.deep_view();
        let ghost prev_pos = pos as int;
        blocks.push(block);
        pos = end;
        proof {
            let s = input@;
            let rest = s.skip(prev_pos);
            assert(blocks.deep_view() =~~= prev_dv.push(block@));
            if end == n {
                assert(rest =~= block@);
                assert(spec_chunks31(rest) == seq![rest]);
                assert(s.skip(pos as int) =~= Seq::<u8>::empty());
                assert(spec_chunks31(s.skip(pos as int)) == Seq::<Seq<u8>>::empty());
                assert(prev_dv + spec_chunks31(rest) =~~= blocks.deep_view() + spec_chunks31(
                    s.skip(pos as int),
                ));
            } else {
                assert(rest.len() > 31);
                assert(spec_chunks31(rest) == seq![rest.take(31)] + spec_chunks31(rest.skip(31)));
                assert(rest.take(31) =~= block@);
                assert(rest.skip(31) =~= s.skip(pos as int));
                assert(prev_dv + spec_chunks31(rest) =~~= blocks.deep_view() + spec_chunks31(
                    s.skip(pos as int),
                ));
            }
        }
    }
    proof {
        assert(input@.skip(pos as int) =~= Seq::<u8>::empty());
        assert(spec_chunks31(input@.skip(pos as int)) == Seq::<Seq<u8>>::empty());
        assert(blocks.deep_view() =~~= spec_chunks31(input@));
    }
    blocks
}

/// The Starknet Poseidon hash as the tree's hash primitive, applied to the
/// input's 31-byte blocks.
pub struct PoseidonHasher;

impl MerkleHash for PoseidonHasher {
    open spec fn hash_spec(input: Seq<u8>) -> Seq<u8> {
        poseidon_of(spec_chunks31(input))
    }

    fn hash(input: &[u8]) -> (r: [u8; 32]) {
        let blocks = chunks31(input);
        poseidon_digest(&blocks)
    }
}

} // verus!
