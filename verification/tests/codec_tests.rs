use mahala::block::{Block, BlockHeader};
use mahala::checkpoint::Checkpoint;
use mahala::codec::{decode_checkpoint, decode_header, decode_transaction, encode_checkpoint,
    encode_header, encode_transaction};
use mahala::crypto::{hash_data, KeyPair};
use mahala::transaction::{Transaction, TransactionMetadata, TransactionType};
use mahala::MICRO;

#[test]
fn transaction_wire_round_trip() {
    let a = KeyPair::new();
    let b = KeyPair::new();
    let mut tx = Transaction::new_at(
        *a.public_key(),
        *b.public_key(),
        42 * MICRO,
        3,
        TransactionMetadata {
            transaction_type: TransactionType::Teleport,
            extra_data: Some(vec![1, 2, 3, 4]),
        },
        1_700_000_000,
    );
    tx.sign(a.private_key()).unwrap();
    let bytes = encode_transaction(&tx);
    let (decoded, consumed) = decode_transaction(&bytes, 0).unwrap();
    assert_eq!(consumed, bytes.len());
    assert_eq!(decoded.from, tx.from);
    assert_eq!(decoded.to, tx.to);
    assert_eq!(decoded.amount, tx.amount);
    assert_eq!(decoded.fee, tx.fee);
    assert_eq!(decoded.timestamp, tx.timestamp);
    assert_eq!(decoded.metadata.transaction_type, tx.metadata.transaction_type);
    assert_eq!(decoded.metadata.extra_data, tx.metadata.extra_data);
    assert_eq!(decoded.signature, tx.signature);
    assert!(decoded.hash.is_none());
}

#[test]
fn transaction_hash_stable_across_wire() {
    let a = KeyPair::new();
    let b = KeyPair::new();
    let mut tx = Transaction::new_at(
        *a.public_key(),
        *b.public_key(),
        7 * MICRO,
        1,
        TransactionMetadata::default(),
        1_650_000_000,
    );
    tx.sign(a.private_key()).unwrap();
    let original_hash = tx.clone().calculate_hash();
    let cloned_hash = tx.clone().calculate_hash();
    assert_eq!(original_hash, cloned_hash);
    let bytes = encode_transaction(&tx);
    let (mut decoded, _) = decode_transaction(&bytes, 0).unwrap();
    assert_eq!(decoded.calculate_hash(), original_hash);
}

#[test]
fn header_wire_round_trip() {
    let keypair = KeyPair::new();
    let mut block = Block::new(9, hash_data(b"prev"), Vec::new(), *keypair.public_key());
    block.calculate_hash();
    let header: BlockHeader = block.header;
    let bytes = encode_header(&header);
    let (decoded, consumed) = decode_header(&bytes, 0).unwrap();
    assert_eq!(consumed, bytes.len());
    assert_eq!(decoded.height, header.height);
    assert_eq!(decoded.previous_hash, header.previous_hash);
    assert_eq!(decoded.merkle_root, header.merkle_root);
    assert_eq!(decoded.timestamp, header.timestamp);
    assert_eq!(decoded.validator, header.validator);
    assert_eq!(decoded.version, header.version);
}

#[test]
fn checkpoint_wire_round_trip() {
    let c = Checkpoint {
        height: 400,
        block_hash: hash_data(b"block"),
        state_hash: hash_data(b"state"),
        timestamp: 1_700_000_123,
        checkpoint_interval: 100,
    };
    let bytes = encode_checkpoint(&c);
    let (decoded, consumed) = decode_checkpoint(&bytes, 0).unwrap();
    assert_eq!(consumed, bytes.len());
    assert_eq!(decoded.height, c.height);
    assert_eq!(decoded.block_hash, c.block_hash);
    assert_eq!(decoded.state_hash, c.state_hash);
    assert_eq!(decoded.timestamp, c.timestamp);
    assert_eq!(decoded.checkpoint_interval, c.checkpoint_interval);
}

#[test]
fn truncated_wire_rejected() {
    let a = KeyPair::new();
    let b = KeyPair::new();
    let tx = Transaction::new_at(
        *a.public_key(),
        *b.public_key(),
        MICRO,
        0,
        TransactionMetadata::default(),
        5,
    );
    let bytes = encode_transaction(&tx);
    assert!(decode_transaction(&bytes[..bytes.len() - 1], 0).is_none());
    assert!(decode_header(&bytes, 0).is_none());
}
