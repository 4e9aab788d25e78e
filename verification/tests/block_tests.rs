use mahala::block::Block;
use mahala::crypto::{hash_data, KeyPair};
use mahala::transaction::{Transaction, TransactionMetadata};
use mahala::MICRO;
use mahala::crypto::sign;

#[test]
fn test_block_creation() {
    let keypair = KeyPair::new();
    let transactions = Vec::new();
    let previous_hash = hash_data(b"genesis");
    let mut block = Block::new(1, previous_hash, transactions, *keypair.public_key());
    block.calculate_hash();
    assert_eq!(block.header.height, 1);
    assert_eq!(block.header.previous_hash, previous_hash);
    assert!(block.is_valid(Some(previous_hash)));
}

#[test]
fn test_block_merkle_root() {
    let keypair = KeyPair::new();
    let keypair1 = KeyPair::new();
    let keypair2 = KeyPair::new();
    let mut tx1 = Transaction::new(
        *keypair1.public_key(),
        *keypair2.public_key(),
        100 * MICRO,
        MICRO / 10,
        TransactionMetadata::default(),
    );
    tx1.sign(keypair1.private_key()).unwrap();
    let transactions = vec![tx1];
    let previous_hash = hash_data(b"test");
    let block = Block::new(0, previous_hash, transactions, *keypair.public_key());
    assert_ne!(block.header.merkle_root, [0u8; 32]);
}

#[test]
fn test_block_quorum() {
    let keypair = KeyPair::new();
    let block = Block::new(0, hash_data(b"genesis"), Vec::new(), *keypair.public_key());
    assert!(!block.has_quorum(10));
    let mut block2 = Block::new(0, hash_data(b"genesis"), Vec::new(), *keypair.public_key());
    let keypair2 = KeyPair::new();
    let keypair3 = KeyPair::new();
    block2.add_validator_signature(*keypair.public_key(), [0u8; 64]);
    block2.add_validator_signature(*keypair2.public_key(), [0u8; 64]);
    block2.add_validator_signature(*keypair3.public_key(), [0u8; 64]);
    assert!(block2.has_quorum(3));
    let mut block3 = Block::new(0, hash_data(b"genesis"), Vec::new(), *keypair.public_key());
    block3.add_validator_signature(*keypair.public_key(), [0u8; 64]);
    block3.add_validator_signature(*keypair2.public_key(), [0u8; 64]);
    assert!(!block3.has_quorum(3));
}

#[test]
fn quorum_trivially_met_with_no_validators() {
    let keypair = KeyPair::new();
    let block = Block::new(0, hash_data(b"g"), Vec::new(), *keypair.public_key());
    assert!(block.has_quorum(0));
}

#[test]
fn duplicate_validator_signature_ignored() {
    let keypair = KeyPair::new();
    let signer = KeyPair::new();
    let mut block = Block::new(0, hash_data(b"g"), Vec::new(), *keypair.public_key());
    block.add_validator_signature(*signer.public_key(), [1u8; 64]);
    block.add_validator_signature(*signer.public_key(), [2u8; 64]);
    assert_eq!(block.validator_signatures.len(), 1);
    assert_eq!(block.validator_signatures[0].signature, [1u8; 64]);
}

#[test]
fn block_invalid_on_wrong_previous_hash() {
    let keypair = KeyPair::new();
    let mut block = Block::new(3, hash_data(b"right"), Vec::new(), *keypair.public_key());
    block.calculate_hash();
    assert!(!block.is_valid(Some(hash_data(b"wrong"))));
}

#[test]
fn block_signature_checked_against_hash() {
    let producer = KeyPair::new();
    let validator = KeyPair::new();
    let mut block = Block::new(2, hash_data(b"prev"), Vec::new(), *producer.public_key());
    let hash = block.calculate_hash();
    let signature = sign(&hash, validator.private_key());
    block.add_validator_signature(*validator.public_key(), signature);
    assert!(block.is_valid(Some(hash_data(b"prev"))));
    let mut bad = Block::new(2, hash_data(b"prev"), Vec::new(), *producer.public_key());
    bad.calculate_hash();
    bad.add_validator_signature(*validator.public_key(), [0u8; 64]);
    assert!(!bad.is_valid(Some(hash_data(b"prev"))));
}
