//! Tree construction, proof generation, and proof verification.
//!
//! A tree of depth `N` has `2^N` leaves; leaf `i` is the hash of the four
//! little-endian bytes of `i`, and each higher layer hashes adjacent pairs
//! of the layer below until a single root remains.

use vstd::arithmetic::div_mod::lemma_div_denominator;
use vstd::arithmetic::power2::*;
use vstd::prelude::*;

use crate::bytes::append32;
use crate::bytes::eq32;
use crate::bytes::spec_le4;
use crate::bytes::u32_le_bytes;
use crate::hash::MerkleHash;
use crate::record::MerkleProof;
use crate::record::ProofError;
use crate::record::ProofModel;

verus! {

broadcast use vstd::array::group_array_axioms, vstd::arithmetic::power2::lemma_pow2_pos;

/// The leaf at index `i`: the hash of the four little-endian bytes of `i`.
pub open spec fn spec_leaf<H: MerkleHash>(i: nat) -> Seq<u8> {
    H::hash_spec(spec_le4(i as u32))
}

/// An interior node: the hash of the left child followed by the right.
pub open spec fn spec_node<H: MerkleHash>(left: Seq<u8>, right: Seq<u8>) -> Seq<u8> {
    H::hash_spec(left + right)
}

/// One reduction step: adjacent pairs of `prev` hashed into the layer above.
pub open spec fn spec_pair_up<H: MerkleHash>(prev: Seq<Seq<u8>>) -> Seq<Seq<u8>> {
    Seq::new(prev.len() / 2, |j: int| spec_node::<H>(prev[2 * j], prev[2 * j + 1]))
}

/// Layer `level` of the depth-`depth` tree; layer 0 is the leaves and layer
/// `depth` holds the root alone.
pub open spec fn spec_layer<H: MerkleHash>(depth: nat, level: nat) -> Seq<Seq<u8>>
    decreases level,
{
    if level == 0 {
        Seq::new(pow2(depth), |i: int| spec_leaf::<H>(i as nat))
    } else {
        spec_pair_up::<H>(spec_layer::<H>(depth, (level - 1) as nat))
    }
}

/// The root of the depth-`depth` tree.
pub open spec fn spec_root<H: MerkleHash>(depth: nat) -> Seq<u8> {
    spec_layer::<H>(depth, depth)[0]
}

/// The index of the node paired with `idx` under one parent.
pub open spec fn sibling_of(idx: nat) -> nat {
    if idx % 2 == 0 {
        idx + 1
    } else {
        (idx - 1) as nat
    }
}

/// The authentication path for leaf `index`: at each level the sibling of
/// the working index, which halves from level to level.
pub open spec fn spec_siblings<H: MerkleHash>(depth: nat, index: nat) -> Seq<Seq<u8>> {
    Seq::new(
        depth,
        |k: int| spec_layer::<H>(depth, k as nat)[sibling_of(index / pow2(k as nat)) as int],
    )
}

/// The proof record the generator produces for leaf `index` of the
/// depth-`depth` tree.
pub open spec fn spec_proof<H: MerkleHash>(depth: nat, index: nat) -> ProofModel {
    ProofModel {
        root: spec_root::<H>(depth),
        index: index,
        leaf: spec_layer::<H>(depth, 0)[index as int],
        siblings: spec_siblings::<H>(depth, index),
    }
}

/// The hash-chain replay the verifier performs: fold the siblings into
/// `current`, pairing on the left or right as the working index is even or
/// odd, halving the index each step.
pub open spec fn spec_chain<H: MerkleHash>(current: Seq<u8>, idx: nat, siblings: Seq<Seq<u8>>) -> Seq<u8>
    decreases siblings.len(),
{
    if siblings.len() == 0 {
        current
    } else {
        let next = if idx % 2 == 0 {
            spec_node::<H>(current, siblings[0])
        } else {
            spec_node::<H>(siblings[0], current)
        };
        spec_chain::<H>(next, idx / 2, siblings.skip(1))
    }
}

/// A proof record verifies when its replayed chain reproduces its root.
pub open spec fn spec_verifies<H: MerkleHash>(p: ProofModel) -> bool {
    spec_chain::<H>(p.leaf, p.index, p.siblings) == p.root
}

/// `pow2` is monotone.
proof fn lemma_pow2_le(e1: nat, e2: nat)
    requires
        e1 <= e2,
    ensures
        pow2(e1) <= pow2(e2),
{
    if e1 < e2 {
        lemma_pow2_strictly_increases(e1, e2);
    }
}

/// Layer `level` of a depth-`depth` tree has `2^(depth - level)` nodes.
pub proof fn lemma_layer_len<H: MerkleHash>(depth: nat, level: nat)
    requires
        level <= depth,
    ensures
        spec_layer::<H>(depth, level).len() == pow2((depth - level) as nat),
    decreases level,
{
    if level == 0 {
    } else {
        lemma_layer_len::<H>(depth, (level - 1) as nat);
        lemma_pow2_unfold((depth - level + 1) as nat);
    }
}

/// Replays a proof record's hash chain and compares the outcome with the
/// claimed root. Trusts the record's own `leaf` and depth
/// (`siblings.len()`); a mismatch is an expected outcome, not an error.
pub fn verify<H: MerkleHash>(p: MerkleProof) -> (r: bool)
    ensures
        r == spec_verifies::<H>(p@),
{
    let mut current: [u8; 32] = p.leaf;
    let mut index: usize = p.index;
    let n = p.siblings.len();
    let mut level: usize = 0;
    proof {
        assert(p@.siblings.skip(0) =~= p@.siblings);
    }
    while level < n
        invariant
            n == p.siblings@.len(),
            0 <= level <= n,
            spec_chain::<H>(p@.leaf, p@.index, p@.siblings) == spec_chain::<H>(
                current@,
                index as nat,
                p@.siblings.skip(level as int),
            ),
        decreases n - level,
    {
        let sibling: [u8; 32] = p.siblings[level];
        let ghost rest = p@.siblings.skip(level as int);
        proof {
            assert(rest[0] == p@.siblings[level as int]);
            assert(sibling.deep_view() =~= sibling@);
            assert((index & 1) == (index % 2)) by (bit_vector);
        }
        let joined: [u8; 64];
        if index & 1 == 0 {
            joined = append32(&current, &sibling);
        } else {
            joined = append32(&sibling, &current);
        }
        current = H::hash(joined.as_slice());
        proof {
            assert((index >> 1) == index / 2) by (bit_vector);
            assert(rest.skip(1) =~= p@.siblings.skip(level as int + 1));
        }
        index = index >> 1;
        level = level + 1;
    }
    proof {
        assert(p@.siblings.skip(n as int) =~= Seq::<Seq<u8>>::empty());
    }
    eq32(&current, &p.root)
}

/// Builds the full depth-`depth` tree and extracts the inclusion proof for
/// leaf `index`. An out-of-range index is rejected before any hashing.
pub fn create_proof<H: MerkleHash>(depth: usize, index: usize) -> (r: Result<
    MerkleProof,
    ProofError,
>)
    requires
        1 <= depth <= 30,
    ensures
        match r {
            Ok(p) => index < pow2(depth as nat) && p@ == spec_proof::<H>(
                depth as nat,
                index as nat,
            ),
            Err(e) => index >= pow2(depth as nat) && e == ProofError::IndexOutOfRange,
        },
{
    proof {
        lemma2_to64();
        lemma_pow2_le(depth as nat, 30);
        assert(usize::MAX >= 0xffffffff);
        vstd::bits::lemma_usize_shl_is_mul(1usize, depth);
    }
    let size: usize = 1usize << depth;
    if index >= size {
        return Err(ProofError::IndexOutOfRange);
    }
    // Layer 0: all the leaves, in index order.
    let mut leaves: Vec<[u8; 32]> = Vec::new();
    let mut i: usize = 0;
    while i < size
        invariant
            0 <= i <= size,
            size == pow2(depth as nat),
            size <= 0x40000000,
            leaves@.len() == i,
            forall|j: int| 0 <= j < i ==> (#[trigger] leaves@[j])@ == spec_leaf::<H>(j as nat),
        decreases size - i,
    {
        let pre = u32_le_bytes(i as u32);
        let h = H::hash(pre.as_slice());
        leaves.push(h);
        i += 1;
    }
    let mut layers: Vec<Vec<[u8; 32]>> = Vec::new();
    proof {
        assert forall|j: int| 0 <= j < size implies leaves.deep_view()[j] == spec_layer::<H>(
            depth as nat,
            0,
        )[j] by {
            assert(leaves@[j].deep_view() =~= leaves@[j]@);
        }
        assert(leaves.deep_view() =~= spec_layer::<H>(depth as nat, 0));
    }
    layers.push(leaves);
    let mut level: usize = 0;
    // Reduce layer by layer until the root layer is reached.
    while level < depth
        invariant
            1 <= depth <= 30,
            size == pow2(depth as nat),
            size <= 0x40000000,
            0 <= level <= depth,
            layers@.len() == level + 1,
            forall|l: int|
                0 <= l <= level ==> (#[trigger] layers@[l]).deep_view() == spec_layer::<H>(
                    depth as nat,
                    l as nat,
                ),
        decreases depth - level,
    {
        let prev: &Vec<[u8; 32]> = &layers[level];
        proof {
            lemma_layer_len::<H>(depth as nat, level as nat);
            lemma_pow2_le((depth - level) as nat, depth as nat);
            lemma_pow2_unfold((depth - level) as nat);
        }
        let half: usize = prev.len() / 2;
        let mut next: Vec<[u8; 32]> = Vec::new();
        let mut j: usize = 0;
        while j < half
            invariant
                0 <= j <= half,
                prev@.len() == 2 * half,
                half <= 0x40000000,
                prev.deep_view() == spec_layer::<H>(depth as nat, level as nat),
                next@.len() == j,
                forall|jj: int|
                    0 <= jj < j ==> (#[trigger] next@[jj])@ == spec_node::<H>(
                        prev.deep_view()[2 * jj],
                        prev.deep_view()[2 * jj + 1],
                    ),
            decreases half - j,
        {
            let joined = append32(&prev[2 * j], &prev[2 * j + 1]);
            let h = H::hash(joined.as_slice());
            proof {
                assert(prev@[2 * j].deep_view() =~= prev@[2 * j]@);
                assert(prev@[2 * j + 1].deep_view() =~= prev@[2 * j + 1]@);
            }
            next.push(h);
            j += 1;
        }
        proof {
            assert forall|jj: int| 0 <= jj < half implies next.deep_view()[jj] == spec_pair_up::<
                H,
            >(spec_layer::<H>(depth as nat, level as nat))[jj] by {
                assert(next@[jj].deep_view() =~= next@[jj]@);
            }
            assert(next.deep_view() =~= spec_pair_up::<H>(
                spec_layer::<H>(depth as nat, level as nat),
            ));
        }
        layers.push(next);
        level += 1;
    }
    proof {
        lemma_layer_len::<H>(depth as nat, depth as nat);
        lemma2_to64();
        assert(layers@[depth as int].deep_view()[0] == spec_root::<H>(depth as nat));
        assert(layers@[0].deep_view()[index as int] == spec_layer::<H>(depth as nat, 0)[index as int]);
    }
    let root: [u8; 32] = layers[depth][0];
    let leaf: [u8; 32] = layers[0][index];
    proof {
        assert(root.deep_view() =~= root@);
        assert(leaf.deep_view() =~= leaf@);
    }
    // The authentication path, siblings in level-ascending order.
    let mut siblings: Vec<[u8; 32]> = Vec::new();
    let mut idx: usize = index;
    let mut lvl: usize = 0;
    while lvl < depth
        invariant
            1 <= depth <= 30,
            size == pow2(depth as nat),
            0 <= lvl <= depth,
            layers@.len() == depth + 1,
            forall|l: int|
                0 <= l <= depth ==> (#[trigger] layers@[l]).deep_view() == spec_layer::<H>(
                    depth as nat,
                    l as nat,
                ),
            idx as nat == (index as nat) / pow2(lvl as nat),
            idx < pow2((depth - lvl) as nat),
            siblings@.len() == lvl,
            forall|k: int|
                0 <= k < lvl ==> (#[trigger] siblings@[k])@ == spec_siblings::<H>(
                    depth as nat,
                    index as nat,
                )[k],
        decreases depth - lvl,
    {
        proof {
            lemma_layer_len::<H>(depth as nat, lvl as nat);
            lemma_pow2_unfold((depth - lvl) as nat);
        }
        let sibling_idx: usize = if idx % 2 == 0 {
            idx + 1
        } else {
            idx - 1
        };
        let s: [u8; 32] = layers[lvl][sibling_idx];
        proof {
            assert(s.deep_view() =~= s@);
            assert(s@ == spec_layer::<H>(depth as nat, lvl as nat)[sibling_of(
                (index as nat) / pow2(lvl as nat),
            ) as int]);
            lemma_div_denominator(index as int, pow2(lvl as nat) as int, 2);
            lemma_pow2_unfold((lvl + 1) as nat);
            assert((idx as nat) / 2 == (index as nat) / pow2((lvl + 1) as nat));
        }
        siblings.push(s);
        idx = idx / 2;
        lvl += 1;
    }
    let result = MerkleProof { root, index, leaf, siblings };
    proof {
        assert(result@.siblings =~~= spec_siblings::<H>(depth as nat, index as nat));
        assert(result@ =~~= spec_proof::<H>(depth as nat, index as nat));
    }
    Ok(result)
}

/// Boundary validation for records from untrusted sources (a decoded byte
/// buffer, say): nothing else enforces that a record's siblings count
/// matches the depth the caller expects, or that its index lies within that
/// depth's leaf range.
pub fn check_proof_shape(p: &MerkleProof, depth: usize) -> (r: bool)
    requires
        depth <= 30,
    ensures
        r == (p@.siblings.len() == depth && p@.index < pow2(depth as nat)),
{
    proof {
        lemma2_to64();
        lemma_pow2_le(depth as nat, 30);
        assert(usize::MAX >= 0xffffffff);
        vstd::bits::lemma_usize_shl_is_mul(1usize, depth);
    }
    p.siblings.len() == depth && p.index < (1usize << depth)
}

/// Law (the provable face of tamper sensitivity): replacing the root of a
/// verifying record with any different value makes verification fail. The
/// corresponding claims for the leaf and the siblings rest on the hash
/// being collision resistant, which no contract here states.
pub proof fn lemma_root_tamper_fails<H: MerkleHash>(p: ProofModel, other: Seq<u8>)
    requires
        spec_verifies::<H>(p),
        other != p.root,
    ensures
        !spec_verifies::<H>(
            ProofModel { root: other, index: p.index, leaf: p.leaf, siblings: p.siblings },
        ),
{
}

/// The authentication path seen from `level` upward, for a node at working
/// index `idx` of that level.
pub open spec fn spec_path_from<H: MerkleHash>(depth: nat, level: nat, idx: nat) -> Seq<Seq<u8>> {
    Seq::new(
        (depth - level) as nat,
        |k: int| spec_layer::<H>(depth, (level + k) as nat)[sibling_of(idx / pow2(k as nat)) as int],
    )
}

/// Climbing the chain from any node of layer `level` along its
/// authentication path reproduces the root.
proof fn lemma_chain_to_root<H: MerkleHash>(depth: nat, level: nat, idx: nat)
    requires
        level <= depth,
        idx < pow2((depth - level) as nat),
    ensures
        spec_chain::<H>(
            spec_layer::<H>(depth, level)[idx as int],
            idx,
            spec_path_from::<H>(depth, level, idx),
        ) == spec_root::<H>(depth),
    decreases depth - level,
{
    lemma2_to64();
    if level == depth {
        assert(spec_path_from::<H>(depth, level, idx).len() == 0);
    } else {
        let lay = spec_layer::<H>(depth, level);
        let path = spec_path_from::<H>(depth, level, idx);
        lemma_layer_len::<H>(depth, level);
        lemma_pow2_unfold((depth - level) as nat);
        let j = idx / 2;
        assert(idx / pow2(0) == idx);
        assert(path[0] == lay[sibling_of(idx) as int]);
        let next = if idx % 2 == 0 {
            spec_node::<H>(lay[idx as int], lay[idx as int + 1])
        } else {
            spec_node::<H>(lay[idx as int - 1], lay[idx as int])
        };
        assert(spec_layer::<H>(depth, level + 1) == spec_pair_up::<H>(lay));
        assert(next == spec_pair_up::<H>(lay)[j as int]);
        assert forall|k: int| 0 <= k < depth - level - 1 implies path.skip(1)[k]
            == spec_path_from::<H>(depth, level + 1, j)[k] by {
            lemma_div_denominator(idx as int, 2, pow2(k as nat) as int);
            lemma_pow2_unfold((k + 1) as nat);
            assert(j / pow2(k as nat) == idx / pow2((k + 1) as nat));
        }
        assert(path.skip(1) =~= spec_path_from::<H>(depth, level + 1, j));
        lemma_chain_to_root::<H>(depth, level + 1, j);
    }
}

/// Law: for every positive depth and every index within the leaf range, the
/// proof the generator describes verifies against the root it carries.
pub proof fn lemma_create_proof_verifies<H: MerkleHash>(depth: nat, index: nat)
    requires
        1 <= depth,
        index < pow2(depth),
    ensures
        spec_verifies::<H>(spec_proof::<H>(depth, index)),
{
    assert(spec_siblings::<H>(depth, index) =~= spec_path_from::<H>(depth, 0, index));
    lemma_chain_to_root::<H>(depth, 0, index);
}

} // verus!
