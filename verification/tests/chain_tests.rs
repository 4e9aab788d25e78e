use mahala::block::Block;
use mahala::chain::Blockchain;
use mahala::crypto::KeyPair;
use mahala::du::DUConfig;
use mahala::rvs::RVSConfig;
use mahala::transaction::{Transaction, TransactionMetadata};
use mahala::MICRO;

#[test]
fn test_blockchain_creation() {
    let blockchain = Blockchain::new(DUConfig::default(), RVSConfig::default());
    assert_eq!(blockchain.height(), 0);
}

#[test]
fn test_genesis_block() {
    let mut blockchain = Blockchain::new(DUConfig::default(), RVSConfig::default());
    let keypair = KeyPair::new();
    let result = blockchain.create_genesis(*keypair.public_key());
    assert!(result.is_ok());
    assert_eq!(blockchain.height(), 1);
}

#[test]
fn test_add_block() {
    let mut blockchain = Blockchain::new(DUConfig::default(), RVSConfig::default());
    let keypair = KeyPair::new();
    blockchain.create_genesis(*keypair.public_key()).unwrap();
    let previous_hash = blockchain.last_block_hash().unwrap();
    let mut block = Block::new(1, previous_hash, Vec::new(), *keypair.public_key());
    block.calculate_hash();
    let result = blockchain.add_block(block);
    assert!(result.is_ok());
    assert_eq!(blockchain.height(), 2);
}

#[test]
fn genesis_twice_fails() {
    let mut blockchain = Blockchain::new(DUConfig::default(), RVSConfig::default());
    let keypair = KeyPair::new();
    assert!(blockchain.create_genesis(*keypair.public_key()).is_ok());
    let second = blockchain.create_genesis(*keypair.public_key());
    assert!(second.is_err());
    assert_eq!(blockchain.height(), 1);
}

#[test]
fn chain_heights_and_links_are_contiguous() {
    let mut blockchain = Blockchain::new(DUConfig::default(), RVSConfig::default());
    let keypair = KeyPair::new();
    blockchain.create_genesis(*keypair.public_key()).unwrap();
    for _ in 0..3 {
        let prev = blockchain.last_block_hash().unwrap();
        let height = blockchain.height();
        let mut block = Block::new(height, prev, Vec::new(), *keypair.public_key());
        block.calculate_hash();
        blockchain.add_block(block).unwrap();
    }
    assert_eq!(blockchain.height(), 4);
    for h in 0..4u64 {
        let block = blockchain.get_block(h).unwrap();
        assert_eq!(block.header.height, h);
        if h > 0 {
            let prev = blockchain.get_block(h - 1).unwrap();
            assert_eq!(block.header.previous_hash, prev.hash.unwrap());
        } else {
            assert_eq!(block.header.previous_hash, [0u8; 32]);
        }
    }
}

#[test]
fn add_block_wrong_height_fails() {
    let mut blockchain = Blockchain::new(DUConfig::default(), RVSConfig::default());
    let keypair = KeyPair::new();
    blockchain.create_genesis(*keypair.public_key()).unwrap();
    let prev = blockchain.last_block_hash().unwrap();
    let mut block = Block::new(5, prev, Vec::new(), *keypair.public_key());
    block.calculate_hash();
    assert!(blockchain.add_block(block).is_err());
    assert_eq!(blockchain.height(), 1);
}

#[test]
fn add_block_before_genesis_fails() {
    let mut blockchain = Blockchain::new(DUConfig::default(), RVSConfig::default());
    let keypair = KeyPair::new();
    let mut block = Block::new(0, [0u8; 32], Vec::new(), *keypair.public_key());
    block.calculate_hash();
    assert!(blockchain.add_block(block).is_err());
}

#[test]
fn insufficient_balance_rejected_atomically() {
    let mut blockchain = Blockchain::new(DUConfig::default(), RVSConfig::default());
    let producer = KeyPair::new();
    let sender = KeyPair::new();
    let recipient = KeyPair::new();
    blockchain.create_genesis(*producer.public_key()).unwrap();
    let mut tx = Transaction::new(
        *sender.public_key(),
        *recipient.public_key(),
        10 * MICRO,
        0,
        TransactionMetadata::default(),
    );
    tx.sign(sender.private_key()).unwrap();
    let prev = blockchain.last_block_hash().unwrap();
    let mut block = Block::new(1, prev, vec![tx], *producer.public_key());
    block.calculate_hash();
    assert!(blockchain.add_block(block).is_err());
    assert_eq!(blockchain.height(), 1);
    assert_eq!(blockchain.get_balance(recipient.public_key()), 0);
}

#[test]
fn unknown_balance_is_zero() {
    let blockchain = Blockchain::new(DUConfig::default(), RVSConfig::default());
    let keypair = KeyPair::new();
    assert_eq!(blockchain.get_balance(keypair.public_key()), 0);
}
