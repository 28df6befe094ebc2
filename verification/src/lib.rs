//! A fixed-depth binary Merkle tree over an index-derived leaf domain.
//!
//! The crate builds the tree layers for a chosen depth, extracts a compact
//! inclusion proof (leaf, authentication path, index, root) for one leaf,
//! verifies such a proof by replaying its hash chain, and moves proofs
//! across process boundaries through a canonical binary codec. The hash
//! primitive is pluggable through the [`MerkleHash`] trait.

pub mod bytes;
pub mod codec;
pub mod hash;
pub mod record;
pub mod tree;

pub use bytes::append32;
pub use codec::load_proof;
pub use codec::save_proof;
pub use codec::DecodeError;
pub use hash::MerkleHash;
pub use hash::PoseidonHasher;
pub use hash::Sha256Hasher;
pub use record::MerkleProof;
pub use record::ProofError;
pub use record::ProofModel;
pub use tree::check_proof_shape;
pub use tree::create_proof;
pub use tree::verify;
