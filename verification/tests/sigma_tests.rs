use merkle_sigma::curve::{point_to_bytes, scalar_to_bytes};
use merkle_sigma::crypto_utils::{
    compute_merkle_product, multiply_points, point_to_scalar, safe_scalar_from_hash,
};
use merkle_sigma::merkle::{build_merkle_tree, compute_merkle_proof, verify_path, MerkleError};
use merkle_sigma::verification::{prove_membership, run_protocol, SigmaProtocol};

fn some_witness(tag: &[u8]) -> merkle_sigma::curve::Scalar {
    let digest = merkle_sigma::merkle::Hash::compute_hash(tag);
    safe_scalar_from_hash(digest.as_bytes())
}

#[test]
fn canonical_digest_maps_to_its_own_value() {
    // SHA-256("abc") starts with 0xba, well below the group order's leading
    // bytes, so the conversion must keep the value rather than fall back to
    // a random scalar.
    let digest = merkle_sigma::merkle::Hash::compute_hash(b"abc");
    let s = safe_scalar_from_hash(digest.as_bytes());
    assert_eq!(scalar_to_bytes(&s), digest.as_bytes().to_vec());
}

#[test]
fn non_canonical_bytes_fall_back_to_random() {
    // 32 bytes of 0xff exceed the group order; the fallback draws a fresh
    // random scalar, so the value differs from the input and two conversions
    // disagree with overwhelming probability.
    let bytes = [0xffu8; 32];
    let a = safe_scalar_from_hash(&bytes);
    let b = safe_scalar_from_hash(&bytes);
    assert_ne!(scalar_to_bytes(&a), bytes.to_vec());
    assert_ne!(scalar_to_bytes(&a), scalar_to_bytes(&b));
}

#[test]
fn honest_protocol_round_accepts() {
    let w = some_witness(b"honest witness");
    let sigma = SigmaProtocol::new(&w);
    let (t, r) = sigma.commit();
    let e = SigmaProtocol::challenge();
    let z = sigma.response(&r, &e);
    assert!(sigma.verify(&t, &e, &z));
}

#[test]
fn run_protocol_accepts() {
    let w = some_witness(b"another witness");
    assert!(run_protocol(&w));
}

#[test]
fn forged_witness_is_rejected() {
    // The response is computed under a different witness than the public
    // value; the verification equation must fail.
    let w = some_witness(b"real witness");
    let w2 = some_witness(b"forged witness");
    let sigma = SigmaProtocol::new(&w);
    let forger = SigmaProtocol::new(&w2);
    let (t, r) = sigma.commit();
    let e = SigmaProtocol::challenge();
    let z_forged = forger.response(&r, &e);
    assert!(!sigma.verify(&t, &e, &z_forged));
    // The honest response still passes with the same commitment and
    // challenge.
    let z = sigma.response(&r, &e);
    assert!(sigma.verify(&t, &e, &z));
}

#[test]
fn fiat_shamir_challenge_is_deterministic() {
    let w = some_witness(b"fiat shamir witness");
    let sigma = SigmaProtocol::new(&w);
    let (t, _r) = sigma.commit();
    let root = merkle_sigma::merkle::Hash::compute_hash(b"some root");
    let e1 = SigmaProtocol::challenge_fiat_shamir(&t, &root);
    let e2 = SigmaProtocol::challenge_fiat_shamir(&t, &root);
    assert_eq!(scalar_to_bytes(&e1), scalar_to_bytes(&e2));
    // A different commitment changes the challenge.
    let (t2, _r2) = sigma.commit();
    let e3 = SigmaProtocol::challenge_fiat_shamir(&t2, &root);
    assert_ne!(scalar_to_bytes(&e1), scalar_to_bytes(&e3));
}

#[test]
fn fiat_shamir_round_is_reproducible() {
    // With the same witness and the same commitment randomness, two
    // Fiat-Shamir runs produce identical transcripts: reuse one commitment
    // and derive the challenge twice.
    let w = some_witness(b"reproducible");
    let sigma = SigmaProtocol::new(&w);
    let (t, r) = sigma.commit();
    let root = merkle_sigma::merkle::Hash::compute_hash(b"transcript root");
    let e1 = SigmaProtocol::challenge_fiat_shamir(&t, &root);
    let e2 = SigmaProtocol::challenge_fiat_shamir(&t, &root);
    let z1 = sigma.response(&r, &e1);
    let z2 = sigma.response(&r, &e2);
    assert_eq!(scalar_to_bytes(&z1), scalar_to_bytes(&z2));
    assert!(sigma.verify(&t, &e1, &z1));
}

#[test]
fn interactive_challenges_differ() {
    let e1 = SigmaProtocol::challenge();
    let e2 = SigmaProtocol::challenge();
    assert_ne!(scalar_to_bytes(&e1), scalar_to_bytes(&e2));
}

#[test]
fn multiply_points_is_deterministic() {
    let w1 = some_witness(b"left point");
    let w2 = some_witness(b"right point");
    let p1 = SigmaProtocol::new(&w1).commit().0;
    let p2 = SigmaProtocol::new(&w2).commit().0;
    let a = multiply_points(&p1, &p2);
    let b = multiply_points(&p1, &p2);
    assert_eq!(point_to_bytes(&a), point_to_bytes(&b));
    // The fold actually reads its arguments: swapping in a different point
    // moves the result.
    let c = multiply_points(&p2, &p2);
    assert_ne!(point_to_bytes(&a), point_to_bytes(&c));
}

#[test]
fn point_to_scalar_is_deterministic() {
    let w = some_witness(b"encode me");
    let p = SigmaProtocol::new(&w).commit().0;
    let a = point_to_scalar(&p);
    let b = point_to_scalar(&p);
    assert_eq!(scalar_to_bytes(&a), scalar_to_bytes(&b));
}

#[test]
fn witness_derivation_is_deterministic() {
    let data = vec![vec![1u8, 2, 3], vec![1, 4, 5], vec![6, 7, 8], vec![9, 10, 11]];
    let w1 = compute_merkle_product(data.clone(), 2).unwrap();
    let w2 = compute_merkle_product(data, 2).unwrap();
    assert_eq!(scalar_to_bytes(&w1), scalar_to_bytes(&w2));
}

#[test]
fn witness_depends_on_index() {
    let data = vec![vec![1u8, 2, 3], vec![1, 4, 5], vec![6, 7, 8], vec![9, 10, 11]];
    let w1 = compute_merkle_product(data.clone(), 1).unwrap();
    let w2 = compute_merkle_product(data, 2).unwrap();
    assert_ne!(scalar_to_bytes(&w1), scalar_to_bytes(&w2));
}

#[test]
fn end_to_end_membership_scenario() {
    // Build the tree over the four leaves, derive the witness for index 2,
    // run the full protocol: the round accepts.
    let data = vec![vec![1u8, 2, 3], vec![1, 4, 5], vec![6, 7, 8], vec![9, 10, 11]];
    let w = compute_merkle_product(data.clone(), 2).unwrap();
    let sigma = SigmaProtocol::new(&w);
    let (t, r) = sigma.commit();
    let e = SigmaProtocol::challenge();
    let z = sigma.response(&r, &e);
    assert!(sigma.verify(&t, &e, &z));
    assert_eq!(prove_membership(data, 2), Ok(true));
}

#[test]
fn end_to_end_out_of_range_index() {
    let data = vec![vec![1u8, 2, 3], vec![1, 4, 5], vec![6, 7, 8], vec![9, 10, 11]];
    match compute_merkle_product(data.clone(), 5) {
        Err(MerkleError::IndexOutOfRange) => {}
        _ => panic!("index 5 of a 4-leaf tree must yield IndexOutOfRange"),
    }
    assert_eq!(prove_membership(data, 5), Err(MerkleError::IndexOutOfRange));
}

#[test]
fn end_to_end_empty_input() {
    let data: Vec<Vec<u8>> = Vec::new();
    assert_eq!(prove_membership(data, 0), Err(MerkleError::EmptyInput));
}

#[test]
fn end_to_end_tampered_path() {
    let data = vec![vec![1u8, 2, 3], vec![1, 4, 5], vec![6, 7, 8], vec![9, 10, 11]];
    let hashes: Vec<merkle_sigma::merkle::Hash> = data
        .iter()
        .map(|d| merkle_sigma::merkle::Hash::compute_hash(d.as_slice()))
        .collect();
    let (tree, root) = build_merkle_tree(&hashes).unwrap();
    let mut path = compute_merkle_proof(&tree, 2).unwrap();
    assert!(verify_path(&hashes[2], &path, 2, &root));
    path[1] = merkle_sigma::merkle::Hash::compute_hash(b"tampered sibling");
    assert!(!verify_path(&hashes[2], &path, 2, &root));
}
