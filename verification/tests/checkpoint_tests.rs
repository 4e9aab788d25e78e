use mahala::block::Block;
use mahala::checkpoint::{Checkpoint, CheckpointConfig};
use mahala::crypto::KeyPair;

#[test]
fn test_checkpoint_creation() {
    let keypair = KeyPair::new();
    let block = Block::new(100, [0u8; 32], Vec::new(), *keypair.public_key());
    let state_hash = [1u8; 32];
    let checkpoint = Checkpoint::from_block(&block, state_hash, 100);
    assert_eq!(checkpoint.height, 100);
    assert!(checkpoint.is_valid());
}

#[test]
fn test_checkpoint_config() {
    let config = CheckpointConfig::default();
    assert!(config.is_checkpoint(100));
    assert!(config.is_checkpoint(200));
    assert!(!config.is_checkpoint(150));
    assert!(!config.is_checkpoint(50));
}

#[test]
fn next_checkpoint_height_adds_interval() {
    let keypair = KeyPair::new();
    let mut block = Block::new(200, [0u8; 32], Vec::new(), *keypair.public_key());
    block.calculate_hash();
    let checkpoint = Checkpoint::from_block(&block, [2u8; 32], 100);
    assert_eq!(checkpoint.next_checkpoint_height(), 300);
}

#[test]
fn checkpoint_invalid_at_genesis_height() {
    let keypair = KeyPair::new();
    let block = Block::new(0, [0u8; 32], Vec::new(), *keypair.public_key());
    let checkpoint = Checkpoint::from_block(&block, [0u8; 32], 100);
    assert!(!checkpoint.is_valid());
}
