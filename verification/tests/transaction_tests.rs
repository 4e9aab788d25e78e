use mahala::crypto::KeyPair;
use mahala::transaction::{Transaction, TransactionMetadata};
use mahala::MICRO;
use mahala::transaction::TransactionType;

#[test]
fn test_transaction_creation() {
    let keypair1 = KeyPair::new();
    let keypair2 = KeyPair::new();
    let mut tx = Transaction::new(
        *keypair1.public_key(),
        *keypair2.public_key(),
        100 * MICRO,
        MICRO / 10,
        TransactionMetadata::default(),
    );
    tx.sign(keypair1.private_key()).unwrap();
    assert!(tx.is_valid());
}

#[test]
fn test_transaction_hash_consistency() {
    let keypair1 = KeyPair::new();
    let keypair2 = KeyPair::new();
    let tx1 = Transaction::new(
        *keypair1.public_key(),
        *keypair2.public_key(),
        100 * MICRO,
        MICRO / 10,
        TransactionMetadata::default(),
    );
    let mut tx2 = tx1.clone();
    let mut tx1 = tx1;
    let hash1 = tx1.calculate_hash();
    let hash2 = tx2.calculate_hash();
    assert_eq!(hash1, hash2);
}

#[test]
fn test_transaction_invalid_negative_amount() {
    let keypair1 = KeyPair::new();
    let keypair2 = KeyPair::new();
    let mut tx = Transaction::new(
        *keypair1.public_key(),
        *keypair2.public_key(),
        -10 * MICRO,
        MICRO / 10,
        TransactionMetadata::default(),
    );
    tx.sign(keypair1.private_key()).unwrap();
    assert!(!tx.is_valid());
}

#[test]
fn valid_transaction_signature_verifies() {
    let keypair1 = KeyPair::new();
    let keypair2 = KeyPair::new();
    let mut tx = Transaction::new_at(
        *keypair1.public_key(),
        *keypair2.public_key(),
        5 * MICRO,
        0,
        TransactionMetadata::default(),
        1_700_000_000,
    );
    tx.sign(keypair1.private_key()).unwrap();
    assert!(tx.is_valid());
    assert!(tx.verify_signature());
}

#[test]
fn self_transfer_rejected_unless_dividend() {
    let keypair = KeyPair::new();
    let mut tx = Transaction::new(
        *keypair.public_key(),
        *keypair.public_key(),
        MICRO,
        0,
        TransactionMetadata::default(),
    );
    tx.sign(keypair.private_key()).unwrap();
    assert!(!tx.is_valid());
    let mut ud = Transaction::new(
        *keypair.public_key(),
        *keypair.public_key(),
        MICRO,
        0,
        TransactionMetadata {
            transaction_type: TransactionType::UniversalDividend,
            extra_data: None,
        },
    );
    ud.sign(keypair.private_key()).unwrap();
    assert!(ud.is_valid());
}

#[test]
fn unsigned_transaction_invalid() {
    let keypair1 = KeyPair::new();
    let keypair2 = KeyPair::new();
    let tx = Transaction::new(
        *keypair1.public_key(),
        *keypair2.public_key(),
        MICRO,
        0,
        TransactionMetadata::default(),
    );
    assert!(!tx.is_valid());
}
