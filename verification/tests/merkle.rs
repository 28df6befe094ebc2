use merkle_proof::append32;
use merkle_proof::check_proof_shape;
use merkle_proof::create_proof;
use merkle_proof::load_proof;
use merkle_proof::save_proof;
use merkle_proof::verify;
use merkle_proof::DecodeError;
use merkle_proof::MerkleHash;
use merkle_proof::PoseidonHasher;
use merkle_proof::ProofError;
use merkle_proof::Sha256Hasher;

fn flip_bit(block: &mut [u8; 32], bit: usize) {
    block[bit / 8] ^= 1 << (bit % 8);
}

#[test]
fn test_verify() {
    let index = 2;
    assert!(verify::<PoseidonHasher>(
        create_proof::<PoseidonHasher>(2, index).unwrap()
    ))
}

#[test]
fn lib_test_verify() {
    let index = 2;
    assert!(verify::<Sha256Hasher>(
        create_proof::<Sha256Hasher>(2, index).unwrap()
    ))
}

#[test]
fn save_and_load() {
    let proof = create_proof::<Sha256Hasher>(2, 2).unwrap();
    let out = save_proof(&proof);
    let proof_out = load_proof(&out, 2).expect("deserialized proof");
    assert_eq!(proof, proof_out);
}

#[test]
fn all_indices_verify_sha256() {
    for depth in 1..=8usize {
        for index in 0..(1usize << depth) {
            let p = create_proof::<Sha256Hasher>(depth, index).unwrap();
            assert!(verify::<Sha256Hasher>(p));
        }
    }
}

#[test]
fn all_indices_verify_poseidon() {
    for depth in 1..=4usize {
        for index in 0..(1usize << depth) {
            let p = create_proof::<PoseidonHasher>(depth, index).unwrap();
            assert!(verify::<PoseidonHasher>(p));
        }
    }
}

#[test]
fn tampered_leaf_fails() {
    let p = create_proof::<Sha256Hasher>(3, 5).unwrap();
    for bit in 0..256 {
        let mut q = p.clone();
        flip_bit(&mut q.leaf, bit);
        assert!(!verify::<Sha256Hasher>(q));
    }
}

#[test]
fn tampered_root_fails() {
    let p = create_proof::<Sha256Hasher>(3, 5).unwrap();
    for bit in 0..256 {
        let mut q = p.clone();
        flip_bit(&mut q.root, bit);
        assert!(!verify::<Sha256Hasher>(q));
    }
}

#[test]
fn tampered_sibling_fails() {
    let p = create_proof::<Sha256Hasher>(3, 5).unwrap();
    for level in 0..3 {
        for bit in 0..256 {
            let mut q = p.clone();
            let mut s = q.siblings[level];
            flip_bit(&mut s, bit);
            q.siblings[level] = s;
            assert!(!verify::<Sha256Hasher>(q));
        }
    }
}

#[test]
fn distinct_leaves() {
    let leaves: Vec<[u8; 32]> = (0..8)
        .map(|i| create_proof::<Sha256Hasher>(3, i).unwrap().leaf)
        .collect();
    for i in 0..8 {
        for j in 0..8 {
            if i != j {
                assert_ne!(leaves[i], leaves[j]);
            }
        }
    }
}

#[test]
fn truncated_decode_fails() {
    let p = create_proof::<Sha256Hasher>(2, 2).unwrap();
    let bytes = save_proof(&p);
    assert_eq!(bytes.len(), 136);
    for cut in 0..bytes.len() {
        assert_eq!(load_proof(&bytes[..cut], 2), Err(DecodeError::Truncated));
    }
}

#[test]
fn trailing_bytes_rejected() {
    let p = create_proof::<Sha256Hasher>(2, 2).unwrap();
    let mut bytes = save_proof(&p);
    bytes.push(0);
    assert_eq!(load_proof(&bytes, 2), Err(DecodeError::TrailingBytes));
}

#[test]
fn depth_mismatch_rejected() {
    let p = create_proof::<Sha256Hasher>(2, 2).unwrap();
    let bytes = save_proof(&p);
    assert_eq!(load_proof(&bytes, 3), Err(DecodeError::Truncated));
    assert_eq!(load_proof(&bytes, 1), Err(DecodeError::TrailingBytes));
}

#[test]
fn concrete_scenario_depth_two() {
    let l: Vec<[u8; 32]> = (0..4u32)
        .map(|i| <Sha256Hasher as MerkleHash>::hash(&i.to_le_bytes()))
        .collect();
    let n0 = <Sha256Hasher as MerkleHash>::hash(&append32(&l[0], &l[1]));
    let n1 = <Sha256Hasher as MerkleHash>::hash(&append32(&l[2], &l[3]));
    let root = <Sha256Hasher as MerkleHash>::hash(&append32(&n0, &n1));
    let p = create_proof::<Sha256Hasher>(2, 2).unwrap();
    assert_eq!(p.index, 2);
    assert_eq!(p.leaf, l[2]);
    assert_eq!(p.siblings, vec![l[3], n0]);
    assert_eq!(p.root, root);
    // Replay by hand: index 2 is even, so the leaf pairs on the left first,
    // then the halved index 1 is odd and the next sibling pairs on the left.
    let step1 = <Sha256Hasher as MerkleHash>::hash(&append32(&p.leaf, &p.siblings[0]));
    assert_eq!(step1, n1);
    let step2 = <Sha256Hasher as MerkleHash>::hash(&append32(&p.siblings[1], &step1));
    assert_eq!(step2, root);
    assert!(verify::<Sha256Hasher>(p));
}

#[test]
fn sha256_known_vectors() {
    let d = <Sha256Hasher as MerkleHash>::hash(b"");
    assert_eq!(
        hex::encode(d),
        "e3b0c44298fc1c149afbf4c8996fb92427ae41e4649b934ca495991b7852b855"
    );
    let d2 = <Sha256Hasher as MerkleHash>::hash(b"abc");
    assert_eq!(
        hex::encode(d2),
        "ba7816bf8f01cfea414140de5dae2223b00361a396177a9cb410ff61f20015ad"
    );
}

#[test]
fn poseidon_digest_depends_on_input() {
    let a = <PoseidonHasher as MerkleHash>::hash(&[1u8]);
    let a_again = <PoseidonHasher as MerkleHash>::hash(&[1u8]);
    let b = <PoseidonHasher as MerkleHash>::hash(&[2u8]);
    assert_eq!(a, a_again);
    assert_ne!(a, b);
    assert_ne!(a, [0u8; 32]);
}

#[test]
fn poseidon_pairing_order_matters() {
    let p = create_proof::<PoseidonHasher>(1, 0).unwrap();
    let straight = <PoseidonHasher as MerkleHash>::hash(&append32(&p.leaf, &p.siblings[0]));
    let swapped = <PoseidonHasher as MerkleHash>::hash(&append32(&p.siblings[0], &p.leaf));
    assert_eq!(straight, p.root);
    assert_ne!(swapped, straight);
}

#[test]
fn out_of_range_index_rejected() {
    assert_eq!(
        create_proof::<Sha256Hasher>(2, 4),
        Err(ProofError::IndexOutOfRange)
    );
    assert!(create_proof::<Sha256Hasher>(2, 3).is_ok());
}

#[test]
fn zero_hasher_tree_verifies() {
    let p = create_proof::<()>(3, 1).unwrap();
    assert_eq!(p.leaf, [0u8; 32]);
    assert!(verify::<()>(p));
}

#[test]
fn append32_concatenates() {
    let a = [1u8; 32];
    let b = [2u8; 32];
    let out = append32(&a, &b);
    assert_eq!(&out[..32], &a[..]);
    assert_eq!(&out[32..], &b[..]);
}

#[test]
fn encoding_layout_is_canonical() {
    let p = create_proof::<Sha256Hasher>(2, 2).unwrap();
    let bytes = save_proof(&p);
    assert_eq!(bytes.len(), 136);
    assert_eq!(&bytes[0..32], &p.root[..]);
    let mut idx = [0u8; 8];
    idx.copy_from_slice(&bytes[32..40]);
    assert_eq!(u64::from_le_bytes(idx), 2);
    assert_eq!(&bytes[40..72], &p.leaf[..]);
    assert_eq!(&bytes[72..104], &p.siblings[0][..]);
    assert_eq!(&bytes[104..136], &p.siblings[1][..]);
}

#[test]
fn shape_check_guards_the_boundary() {
    let p = create_proof::<Sha256Hasher>(2, 3).unwrap();
    assert!(check_proof_shape(&p, 2));
    assert!(!check_proof_shape(&p, 3));
    let mut q = p.clone();
    q.index = 4;
    assert!(!check_proof_shape(&q, 2));
    let mut r = p.clone();
    r.siblings.pop();
    assert!(!check_proof_shape(&r, 2));
}

#[test]
fn round_trip_poseidon() {
    let p = create_proof::<PoseidonHasher>(3, 5).unwrap();
    let bytes = save_proof(&p);
    let q = load_proof(&bytes, 3).expect("deserialized proof");
    assert_eq!(p, q);
    assert!(verify::<PoseidonHasher>(q));
}
