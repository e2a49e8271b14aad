use pine_analytics::digest::Digest;
use pine_analytics::merkle::MerkleIndex;

fn index_of(ids: &[u64]) -> MerkleIndex {
    let mut index = MerkleIndex::new(8);
    for id in ids {
        index.insert(*id, format!("event{}", id).as_bytes());
    }
    index
}

#[test]
fn test_merkle_insert_and_root() {
    let mut index = MerkleIndex::new(8);

    index.insert(1, b"event1");
    assert!(index.root.is_some());

    let root1 = index.root.unwrap();

    index.insert(2, b"event2");
    let root2 = index.root.unwrap();

    assert_ne!(root1.0, root2.0);
}

#[test]
fn test_merkle_proof_verification() {
    let mut index = MerkleIndex::new(8);

    index.insert(1, b"event1");
    index.insert(2, b"event2");
    index.insert(3, b"event3");
    index.insert(4, b"event4");

    let root = index.get_root().unwrap();
    let proof = index.generate_proof(2).unwrap();

    assert!(MerkleIndex::verify_proof(&root, &proof));
}

#[test]
fn test_invalid_proof_fails() {
    let mut index = MerkleIndex::new(8);

    index.insert(1, b"event1");
    index.insert(2, b"event2");

    let root = index.get_root().unwrap();
    let mut proof = index.generate_proof(1).unwrap();

    proof.leaf_hash = Digest([99u8; 32]);

    assert!(!MerkleIndex::verify_proof(&root, &proof));
}

#[test]
fn empty_index_has_no_root_and_no_proofs() {
    let index = MerkleIndex::new(8);
    assert!(index.get_root().is_none());
    assert!(index.generate_proof(1).is_none());
    assert_eq!(index.event_count(), 0);
    assert!(index.generate_batch_proof(&[1, 2], 7).is_none());
}

#[test]
fn root_is_independent_of_insertion_order() {
    let ascending = index_of(&[1, 2, 3, 4]);
    let orders: [[u64; 4]; 4] = [[4, 3, 2, 1], [2, 4, 1, 3], [3, 1, 4, 2], [1, 3, 2, 4]];
    for order in orders.iter() {
        let other = index_of(order);
        assert_eq!(other.get_root().unwrap().0, ascending.get_root().unwrap().0);
    }
}

#[test]
fn every_indexed_id_has_a_verifying_proof_and_tampering_fails() {
    for n in 1..=7u64 {
        let ids: Vec<u64> = (1..=n).map(|i| i * 10).collect();
        let index = index_of(&ids);
        let root = index.get_root().unwrap();
        for id in &ids {
            let proof = index.generate_proof(*id).unwrap();
            assert_eq!(proof.event_id, *id);
            assert!(MerkleIndex::verify_proof(&root, &proof));
            let mut tampered = proof.clone();
            tampered.leaf_hash.0[5] ^= 1;
            assert!(!MerkleIndex::verify_proof(&root, &tampered));
        }
        assert!(index.generate_proof(3).is_none());
    }
}

#[test]
fn single_leaf_root_is_its_hash_and_path_is_empty() {
    let index = index_of(&[5]);
    let proof = index.generate_proof(5).unwrap();
    assert!(proof.path.is_empty());
    assert_eq!(index.get_root().unwrap().0, proof.leaf_hash.0);
}

#[test]
fn hash_data_folds_bytes_by_position() {
    let mut data = vec![0u8; 33];
    data[0] = 0x0f;
    data[32] = 0xf0;
    data[1] = 7;
    let d = Digest::of_bytes(&data);
    assert_eq!(d.0[0], 0xff);
    assert_eq!(d.0[1], 7);
    assert_eq!(d.0[2], 0);
    let h = Digest::of_bytes(b"event1");
    assert_eq!(&h.0[..6], b"event1");
    assert!(h.0[6..].iter().all(|b| *b == 0));
}

#[test]
fn combine_is_bytewise_xor() {
    let a = Digest([0b1010u8; 32]);
    let b = Digest([0b0110u8; 32]);
    let c = Digest::combine(&a, &b);
    assert_eq!(c.0, [0b1100u8; 32]);
}

#[test]
fn two_leaves_root_is_their_combination() {
    let index = index_of(&[1, 2]);
    let h1 = Digest::of_bytes(b"event1");
    let h2 = Digest::of_bytes(b"event2");
    assert_eq!(index.get_root().unwrap().0, Digest::combine(&h1, &h2).0);
    let proof = index.generate_proof(2).unwrap();
    assert_eq!(proof.path.len(), 1);
    assert_eq!(proof.path[0].0 .0, h1.0);
    assert!(proof.path[0].1);
}

#[test]
fn three_leaves_are_padded_with_zero() {
    let index = index_of(&[1, 2, 3]);
    let h: Vec<Digest> = (1..=3).map(|i| Digest::of_bytes(format!("event{}", i).as_bytes())).collect();
    let zero = Digest::zero();
    let left = Digest::combine(&h[0], &h[1]);
    let right = Digest::combine(&h[2], &zero);
    assert_eq!(index.get_root().unwrap().0, Digest::combine(&left, &right).0);
    let proof = index.generate_proof(3).unwrap();
    assert_eq!(proof.path.len(), 2);
    assert_eq!(proof.path[0].0 .0, zero.0);
    assert!(!proof.path[0].1);
    assert_eq!(proof.path[1].0 .0, left.0);
    assert!(proof.path[1].1);
}

#[test]
fn overwriting_a_leaf_changes_the_root() {
    let mut index = index_of(&[1, 2]);
    let before = index.get_root().unwrap();
    index.insert_hash(2, Digest([1u8; 32]));
    assert_eq!(index.event_count(), 2);
    assert_ne!(index.get_root().unwrap().0, before.0);
}

#[test]
fn batch_proof_keeps_only_indexed_ids() {
    let index = index_of(&[1, 2, 3]);
    let batch = index.generate_batch_proof(&[2, 9, 3], 42).unwrap();
    assert_eq!(batch.batch_id, 42);
    assert_eq!(batch.event_count, 3);
    assert_eq!(batch.proofs.len(), 2);
    assert_eq!(batch.proofs[0].event_id, 2);
    assert_eq!(batch.proofs[1].event_id, 3);
    assert_eq!(batch.batch_root.0, index.get_root().unwrap().0);
    assert!(index.generate_batch_proof(&[8, 9], 1).is_none());
}
