use stark_verifier::merkle_tree::{verify, MerkleTree};
use stark_verifier::sample::SmallHasher;

fn lcg(state: &mut u64) -> u64 {
    *state = state
        .wrapping_mul(6364136223846793005)
        .wrapping_add(1442695040888963407);
    (*state >> 33) % 257
}

fn rand_digest(state: &mut u64) -> Vec<u64> {
    (0..8).map(|_| lcg(state)).collect()
}

fn rand_leaves(state: &mut u64, n: usize) -> Vec<Vec<u64>> {
    (0..n).map(|_| rand_digest(state)).collect()
}

#[test]
fn test_merkle_tree_inner() {
    let hasher = SmallHasher;
    let mut state: u64 = 42;
    for _ in 0..20 {
        let leaves = rand_leaves(&mut state, 17);
        let (root, tree) = MerkleTree::commit(&hasher, leaves.clone());
        for (i, leaf) in leaves.iter().enumerate() {
            let (value, proof) = tree.open(i);
            assert!(value == *leaf);
            MerkleTree::verify(&hasher, i, value.clone(), &proof, root.clone()).unwrap();
            let index_bits: Vec<bool> = (0..5).map(|b| (i >> b) & 1 == 1).collect();
            verify(&hasher, &index_bits, value, &proof, root.clone()).unwrap();
        }
    }
}

#[test]
fn merkle_open_17_leaves_flip_first_sibling() {
    let hasher = SmallHasher;
    let mut state: u64 = 7;
    let leaves = rand_leaves(&mut state, 17);
    let (root, tree) = MerkleTree::commit(&hasher, leaves.clone());
    for i in 0..17 {
        let (value, proof) = tree.open(i);
        assert!(MerkleTree::verify(&hasher, i, value, &proof, root.clone()).is_ok());
    }
    let (value, mut proof) = tree.open(3);
    proof[0][0] ^= 1;
    assert!(MerkleTree::verify(&hasher, 3, value, &proof, root).is_err());
}

#[test]
fn merkle_soundness_bit_flips() {
    let hasher = SmallHasher;
    let mut state: u64 = 99;
    let leaves = rand_leaves(&mut state, 12);
    let (root, tree) = MerkleTree::commit(&hasher, leaves.clone());
    let (value, proof) = tree.open(5);

    // flipping a bit of the root is rejected
    let mut bad_root = root.clone();
    bad_root[2] ^= 1;
    assert!(MerkleTree::verify(&hasher, 5, value.clone(), &proof, bad_root).is_err());

    // flipping a bit of the opened value is rejected
    let mut bad_value = value.clone();
    bad_value[7] ^= 1;
    assert!(MerkleTree::verify(&hasher, 5, bad_value, &proof, root.clone()).is_err());

    // flipping a bit of any sibling is rejected
    for level in 0..proof.len() {
        let mut bad_proof = proof.clone();
        bad_proof[level][1] ^= 1;
        assert!(MerkleTree::verify(&hasher, 5, value.clone(), &bad_proof, root.clone()).is_err());
    }

    // the untampered opening still verifies
    assert!(MerkleTree::verify(&hasher, 5, value, &proof, root).is_ok());
}

#[test]
fn merkle_padding_independence() {
    let hasher = SmallHasher;
    let mut state: u64 = 1234;
    let base = rand_leaves(&mut state, 17);

    // identical explicit zero padding gives the identical tree
    let mut padded_same = base.clone();
    padded_same.push(vec![0; 8]);
    padded_same.push(vec![0; 8]);
    let (root_a, tree_a) = MerkleTree::commit(&hasher, base.clone());
    let (root_b, tree_b) = MerkleTree::commit(&hasher, padded_same);
    assert_eq!(root_a, root_b);
    for i in 0..17 {
        let (va, pa) = tree_a.open(i);
        let (vb, pb) = tree_b.open(i);
        assert_eq!(va, vb);
        assert_eq!(pa, pb);
    }

    // a differing tail changes the root, but not the opened values
    let mut extended = base.clone();
    extended.push(vec![1, 2, 3, 4, 5, 6, 7, 8]);
    let (root_c, tree_c) = MerkleTree::commit(&hasher, extended);
    assert_ne!(root_a, root_c);
    for i in 0..17 {
        let (va, _) = tree_a.open(i);
        let (vc, _) = tree_c.open(i);
        assert_eq!(va, vc);
        assert_eq!(va, base[i]);
    }
}

#[test]
fn merkle_two_leaves() {
    let hasher = SmallHasher;
    let leaves = vec![vec![1, 2, 3, 4, 5, 6, 7, 8], vec![9, 10, 11, 12, 13, 14, 15, 16]];
    let (root, tree) = MerkleTree::commit(&hasher, leaves.clone());
    for i in 0..2 {
        let (value, proof) = tree.open(i);
        assert_eq!(value, leaves[i]);
        assert_eq!(proof.len(), 1);
        assert!(MerkleTree::verify(&hasher, i, value, &proof, root.clone()).is_ok());
    }
}
