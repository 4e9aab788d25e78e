use mahala::crypto::KeyPair;
use mahala::mempool::{Mempool, MempoolError};
use mahala::transaction::{Transaction, TransactionMetadata};
use mahala::MICRO;

fn signed_tx(from: &KeyPair, to: &KeyPair, amount: i64, fee: i64, ts: i64) -> Transaction {
    let mut tx = Transaction::new_at(
        *from.public_key(),
        *to.public_key(),
        amount,
        fee,
        TransactionMetadata::default(),
        ts,
    );
    tx.sign(from.private_key()).unwrap();
    tx
}

#[test]
fn invalid_transaction_rejected() {
    let mut pool = Mempool::new(10, 3600);
    let a = KeyPair::new();
    let b = KeyPair::new();
    let tx = Transaction::new(
        *a.public_key(),
        *b.public_key(),
        MICRO,
        0,
        TransactionMetadata::default(),
    );
    let result = pool.add_transaction_at(tx, 100);
    assert_eq!(result.unwrap_err(), MempoolError::InvalidTransaction);
    assert_eq!(pool.size(), 0);
}

#[test]
fn duplicate_transaction_rejected() {
    let mut pool = Mempool::new(10, 3600);
    let a = KeyPair::new();
    let b = KeyPair::new();
    let tx = signed_tx(&a, &b, MICRO, 1, 7);
    assert!(pool.add_transaction_at(tx.clone(), 100).is_ok());
    let result = pool.add_transaction_at(tx, 101);
    assert_eq!(result.unwrap_err(), MempoolError::AlreadyExists);
    assert_eq!(pool.size(), 1);
}

#[test]
fn capacity_evicts_oldest() {
    let mut pool = Mempool::new(2, 3600);
    let a = KeyPair::new();
    let b = KeyPair::new();
    let tx1 = signed_tx(&a, &b, MICRO, 1, 1);
    let tx2 = signed_tx(&a, &b, MICRO, 2, 2);
    let tx3 = signed_tx(&a, &b, MICRO, 3, 3);
    pool.add_transaction_at(tx1, 10).unwrap();
    pool.add_transaction_at(tx2, 20).unwrap();
    pool.add_transaction_at(tx3, 30).unwrap();
    assert_eq!(pool.size(), 2);
    let picked = pool.get_transactions_for_block_at(10, 30);
    assert_eq!(picked.len(), 2);
    assert!(picked.iter().all(|t| t.fee != 1));
}

#[test]
fn block_selection_orders_by_priority() {
    let mut pool = Mempool::new(10, 3600);
    let a = KeyPair::new();
    let b = KeyPair::new();
    let low = signed_tx(&a, &b, 100 * MICRO, MICRO / 100, 1);
    let high = signed_tx(&a, &b, 100 * MICRO, MICRO, 2);
    pool.add_transaction_at(low, 5).unwrap();
    pool.add_transaction_at(high, 6).unwrap();
    let picked = pool.get_transactions_for_block_at(10, 10);
    assert_eq!(picked.len(), 2);
    assert_eq!(picked[0].fee, MICRO);
    assert_eq!(picked[1].fee, MICRO / 100);
    let only_one = pool.get_transactions_for_block_at(1, 10);
    assert_eq!(only_one.len(), 1);
    assert_eq!(only_one[0].fee, MICRO);
}

#[test]
fn expired_entries_not_selected() {
    let mut pool = Mempool::new(10, 100);
    let a = KeyPair::new();
    let b = KeyPair::new();
    let tx = signed_tx(&a, &b, MICRO, 1, 1);
    pool.add_transaction_at(tx, 0).unwrap();
    assert_eq!(pool.get_transactions_for_block_at(10, 50).len(), 1);
    assert_eq!(pool.get_transactions_for_block_at(10, 200).len(), 0);
    pool.cleanup_expired_at(200);
    assert_eq!(pool.size(), 0);
}

#[test]
fn removal_by_hash() {
    let mut pool = Mempool::new(10, 3600);
    let a = KeyPair::new();
    let b = KeyPair::new();
    let mut tx = signed_tx(&a, &b, MICRO, 1, 1);
    let hash = tx.calculate_hash();
    pool.add_transaction_at(tx, 0).unwrap();
    assert_eq!(pool.size(), 1);
    pool.remove_transactions(&[hash, [9u8; 32]]);
    assert_eq!(pool.size(), 0);
}
