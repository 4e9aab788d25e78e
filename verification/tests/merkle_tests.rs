use mahala::crypto::KeyPair;
use mahala::merkle::MerkleTree;
use mahala::transaction::{Transaction, TransactionMetadata};
use mahala::MICRO;

fn signed_tx(from: &KeyPair, to: &KeyPair, amount: i64) -> Transaction {
    let mut tx = Transaction::new(
        *from.public_key(),
        *to.public_key(),
        amount,
        MICRO / 10,
        TransactionMetadata::default(),
    );
    tx.sign(from.private_key()).unwrap();
    tx.calculate_hash();
    tx
}

#[test]
fn test_merkle_tree_empty() {
    let tree = MerkleTree::from_transactions(&[]);
    assert_ne!(tree.root(), [0u8; 32]);
}

#[test]
fn test_merkle_tree_single() {
    let keypair1 = KeyPair::new();
    let keypair2 = KeyPair::new();
    let tx = signed_tx(&keypair1, &keypair2, 100 * MICRO);
    let tree = MerkleTree::from_transactions(&[tx.clone()]);
    let root = tree.root();
    let proof = tree.generate_proof(tx.hash.unwrap()).unwrap();
    assert!(MerkleTree::verify_proof(&proof, root));
}

#[test]
fn test_merkle_proof_multiple() {
    let keypair1 = KeyPair::new();
    let keypair2 = KeyPair::new();
    let mut txs = Vec::new();
    for i in 0..4 {
        txs.push(signed_tx(&keypair1, &keypair2, 100 * MICRO + i));
    }
    let tree = MerkleTree::from_transactions(&txs);
    let root = tree.root();
    for tx in &txs {
        let proof = tree.generate_proof(tx.hash.unwrap()).unwrap();
        assert!(MerkleTree::verify_proof(&proof, root));
    }
}

#[test]
fn merkle_single_leaf_root_is_leaf() {
    let keypair1 = KeyPair::new();
    let keypair2 = KeyPair::new();
    let tx = signed_tx(&keypair1, &keypair2, MICRO);
    let leaf = tx.hash.unwrap();
    let tree = MerkleTree::from_transactions(&[tx]);
    assert_eq!(tree.root(), leaf);
    let proof = tree.generate_proof(leaf).unwrap();
    assert!(proof.path.is_empty());
    assert_eq!(proof.index, 0);
    assert!(MerkleTree::verify_proof(&proof, leaf));
}

#[test]
fn merkle_proof_fails_after_bit_flip() {
    let keypair1 = KeyPair::new();
    let keypair2 = KeyPair::new();
    let mut txs = Vec::new();
    for i in 0..4 {
        txs.push(signed_tx(&keypair1, &keypair2, MICRO + i));
    }
    let tree = MerkleTree::from_transactions(&txs);
    let root = tree.root();
    let mut proof = tree.generate_proof(txs[2].hash.unwrap()).unwrap();
    proof.path[0][0] ^= 1;
    assert!(!MerkleTree::verify_proof(&proof, root));
}

#[test]
fn merkle_proof_unknown_hash_is_none() {
    let keypair1 = KeyPair::new();
    let keypair2 = KeyPair::new();
    let tx = signed_tx(&keypair1, &keypair2, MICRO);
    let tree = MerkleTree::from_transactions(&[tx]);
    assert!(tree.generate_proof([7u8; 32]).is_none());
}
