use merkle_sigma::merkle::{build_merkle_tree, compute_merkle_proof, verify_path, MerkleError};

fn leaf_hashes(data: &[Vec<u8>]) -> Vec<merkle_sigma::merkle::Hash> {
    data.iter()
        .map(|d| merkle_sigma::merkle::Hash::compute_hash(d.as_slice()))
        .collect()
}

#[test]
fn compute_hash_known_vectors() {
    // SHA-256 of the empty string and of "abc", byte for byte.
    let empty = merkle_sigma::merkle::Hash::compute_hash(&[]);
    let expected_empty: Vec<u8> = vec![
        0xe3, 0xb0, 0xc4, 0x42, 0x98, 0xfc, 0x1c, 0x14, 0x9a, 0xfb, 0xf4, 0xc8, 0x99, 0x6f,
        0xb9, 0x24, 0x27, 0xae, 0x41, 0xe4, 0x64, 0x9b, 0x93, 0x4c, 0xa4, 0x95, 0x99, 0x1b,
        0x78, 0x52, 0xb8, 0x55,
    ];
    assert_eq!(empty.as_bytes(), expected_empty.as_slice());

    let abc = merkle_sigma::merkle::Hash::compute_hash(b"abc");
    let expected_abc: Vec<u8> = vec![
        0xba, 0x78, 0x16, 0xbf, 0x8f, 0x01, 0xcf, 0xea, 0x41, 0x41, 0x40, 0xde, 0x5d, 0xae,
        0x22, 0x23, 0xb0, 0x03, 0x61, 0xa3, 0x96, 0x17, 0x7a, 0x9c, 0xb4, 0x10, 0xff, 0x61,
        0xf2, 0x00, 0x15, 0xad,
    ];
    assert_eq!(abc.as_bytes(), expected_abc.as_slice());
}

#[test]
fn empty_input_is_rejected() {
    let leaves: Vec<merkle_sigma::merkle::Hash> = Vec::new();
    match build_merkle_tree(&leaves) {
        Err(MerkleError::EmptyInput) => {}
        _ => panic!("zero leaves must yield EmptyInput"),
    }
}

#[test]
fn root_is_deterministic() {
    let data = vec![vec![1u8, 2, 3], vec![1, 4, 5], vec![6, 7, 8], vec![9, 10, 11]];
    let (_, root_a) = build_merkle_tree(&leaf_hashes(&data)).unwrap();
    let (_, root_b) = build_merkle_tree(&leaf_hashes(&data)).unwrap();
    assert!(root_a == root_b);
}

#[test]
fn permuting_leaves_changes_root() {
    let data = vec![vec![1u8, 2, 3], vec![1, 4, 5], vec![6, 7, 8], vec![9, 10, 11]];
    let permuted = vec![vec![1u8, 4, 5], vec![1, 2, 3], vec![6, 7, 8], vec![9, 10, 11]];
    let (_, root_a) = build_merkle_tree(&leaf_hashes(&data)).unwrap();
    let (_, root_b) = build_merkle_tree(&leaf_hashes(&permuted)).unwrap();
    assert!(root_a != root_b);
}

#[test]
fn single_leaf_tree_root_is_the_leaf() {
    let data = vec![vec![42u8]];
    let hashes = leaf_hashes(&data);
    let (tree, root) = build_merkle_tree(&hashes).unwrap();
    assert_eq!(tree.num_levels(), 1);
    assert!(root == *tree.node_at(0, 0));
    assert!(root == hashes[0]);
}

#[test]
fn odd_level_duplicates_last_node() {
    // A 3-leaf tree: level 1 has 2 nodes and its second node is the hash of
    // the third leaf digest combined with itself.
    let data = vec![vec![1u8], vec![2u8], vec![3u8]];
    let hashes = leaf_hashes(&data);
    let (tree, _) = build_merkle_tree(&hashes).unwrap();
    assert_eq!(tree.num_levels(), 3);
    assert_eq!(tree.level_size(1), 2);
    let mut doubled = Vec::new();
    doubled.extend_from_slice(hashes[2].as_bytes());
    doubled.extend_from_slice(hashes[2].as_bytes());
    let expected = merkle_sigma::merkle::Hash::compute_hash(doubled.as_slice());
    assert!(*tree.node_at(1, 1) == expected);
}

#[test]
fn every_path_verifies() {
    for n in 1..=8usize {
        let data: Vec<Vec<u8>> = (0..n).map(|i| vec![i as u8, 7, 9]).collect();
        let hashes = leaf_hashes(&data);
        let (tree, root) = build_merkle_tree(&hashes).unwrap();
        for i in 0..n {
            let path = compute_merkle_proof(&tree, i).unwrap();
            assert!(verify_path(&hashes[i], &path, i, &root));
        }
    }
}

#[test]
fn tampered_sibling_fails_verification() {
    let data = vec![vec![1u8, 2, 3], vec![1, 4, 5], vec![6, 7, 8], vec![9, 10, 11]];
    let hashes = leaf_hashes(&data);
    let (tree, root) = build_merkle_tree(&hashes).unwrap();
    let mut path = compute_merkle_proof(&tree, 2).unwrap();
    assert!(verify_path(&hashes[2], &path, 2, &root));
    path[0] = merkle_sigma::merkle::Hash::compute_hash(b"tampered");
    assert!(!verify_path(&hashes[2], &path, 2, &root));
}

#[test]
fn tampered_leaf_fails_verification() {
    let data = vec![vec![1u8, 2, 3], vec![1, 4, 5], vec![6, 7, 8], vec![9, 10, 11]];
    let hashes = leaf_hashes(&data);
    let (tree, root) = build_merkle_tree(&hashes).unwrap();
    let path = compute_merkle_proof(&tree, 1).unwrap();
    let wrong_leaf = merkle_sigma::merkle::Hash::compute_hash(&[1u8, 4, 6]);
    assert!(!verify_path(&wrong_leaf, &path, 1, &root));
}

#[test]
fn wrong_index_fails_verification() {
    let data = vec![vec![1u8, 2, 3], vec![1, 4, 5], vec![6, 7, 8], vec![9, 10, 11]];
    let hashes = leaf_hashes(&data);
    let (tree, root) = build_merkle_tree(&hashes).unwrap();
    let path = compute_merkle_proof(&tree, 2).unwrap();
    assert!(!verify_path(&hashes[2], &path, 3, &root));
}

#[test]
fn out_of_range_index_is_rejected() {
    let data = vec![vec![1u8, 2, 3], vec![1, 4, 5], vec![6, 7, 8], vec![9, 10, 11]];
    let (tree, _) = build_merkle_tree(&leaf_hashes(&data)).unwrap();
    match compute_merkle_proof(&tree, 5) {
        Err(MerkleError::IndexOutOfRange) => {}
        _ => panic!("an index beyond the leaf count must yield IndexOutOfRange"),
    }
}
