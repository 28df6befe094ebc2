//! The inclusion-proof record and its mathematical model.

use vstd::prelude::*;

verus! {

broadcast use vstd::array::group_array_axioms;

/// Mathematical model of a [`MerkleProof`]: every 32-byte block is a byte
/// sequence and the index is an unbounded natural number.
#[verifier::ext_equal]
pub ghost struct ProofModel {
    pub root: Seq<u8>,
    pub index: nat,
    pub leaf: Seq<u8>,
    pub siblings: Seq<Seq<u8>>,
}

impl ProofModel {
    /// Shape every proof built in this crate has: 32-byte blocks throughout
    /// and an index that a machine word can hold.
    pub open spec fn wf(self) -> bool {
        &&& self.root.len() == 32
        &&& self.leaf.len() == 32
        &&& self.index <= usize::MAX
        &&& forall|i: int| 0 <= i < self.siblings.len() ==> (#[trigger] self.siblings[i]).len() == 32
    }
}

/// The one failure the proof generator can report: a target index outside
/// the tree's leaf range.
#[derive(Clone, Copy, Debug, PartialEq, Eq, Structural)]
pub enum ProofError {
    IndexOutOfRange,
}

/// A compact inclusion proof: the claimed root, the leaf at `index`, and the
/// authentication path from the leaf's level up to the root, in
/// level-ascending order. Immutable once produced; the depth of the tree it
/// came from is `siblings.len()`.
#[derive(Clone, Debug, PartialEq, Eq)]
pub struct MerkleProof {
    pub root: [u8; 32],
    pub index: usize,
    pub leaf: [u8; 32],
    pub siblings: Vec<[u8; 32]>,
}

impl View for MerkleProof {
    type V = ProofModel;

    open spec fn view(&self) -> ProofModel {
        ProofModel {
            root: self.root@,
            index: self.index as nat,
            leaf: self.leaf@,
            siblings: self.siblings.deep_view(),
        }
    }
}

/// The model of any proof value is well-formed: the field types force it.
pub proof fn lemma_proof_view_wf(p: &MerkleProof)
    ensures
        p@.wf(),
{
    assert(forall|i: int|
        0 <= i < p.siblings.deep_view().len() ==> (#[trigger] p.siblings.deep_view()[i]).len()
            == 32);
}

} // verus!
