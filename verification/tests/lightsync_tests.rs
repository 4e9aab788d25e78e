use mahala::block::Block;
use mahala::checkpoint::Checkpoint;
use mahala::crypto::{hash_data, KeyPair};
use mahala::lightsync::{LightClientConfig, LightClientState, SyncManager, ValidatorParticipant};

#[test]
fn sync_manager_records_checkpoint() {
    let mut manager = SyncManager::new();
    assert!(manager.last_checkpoint().is_none());
    assert_eq!(manager.synced_height(), 0);
    let checkpoint = Checkpoint {
        height: 300,
        block_hash: hash_data(b"b"),
        state_hash: hash_data(b"s"),
        timestamp: 9,
        checkpoint_interval: 100,
    };
    let blocks = manager.sync_from_checkpoint(checkpoint, "http://node").unwrap();
    assert!(blocks.is_empty());
    assert_eq!(manager.synced_height(), 300);
    assert_eq!(manager.last_checkpoint().unwrap().height, 300);
    let more = manager.sync_new_blocks(300, "http://node").unwrap();
    assert!(more.is_empty());
}

#[test]
fn participant_signs_when_registered() {
    let producer = KeyPair::new();
    let validator = KeyPair::new();
    let mut participant = ValidatorParticipant::new();
    let mut block = Block::new(1, hash_data(b"prev"), Vec::new(), *producer.public_key());
    let signed = participant
        .sign_block_if_selected(&mut block, validator.private_key())
        .unwrap();
    assert!(!signed);
    participant.register(*validator.public_key());
    let signed = participant
        .sign_block_if_selected(&mut block, validator.private_key())
        .unwrap();
    assert!(signed);
    assert_eq!(block.validator_signatures.len(), 1);
    assert!(block.is_valid(Some(hash_data(b"prev"))));
    assert_eq!(participant.stats.blocks_signed, 1);
}

#[test]
fn participation_counters() {
    let mut participant = ValidatorParticipant::new();
    participant.update_stats(true, true);
    participant.update_stats(true, false);
    participant.update_stats(false, false);
    assert_eq!(participant.stats.times_selected, 2);
    assert_eq!(participant.stats.absences, 1);
}

#[test]
fn light_client_defaults() {
    let config = LightClientConfig::default();
    assert_eq!(config.sync_interval, 10);
    assert!(config.enable_consensus);
    let wallet = KeyPair::new();
    let state = LightClientState::new(*wallet.public_key());
    assert_eq!(state.balance, 0);
    assert_eq!(state.synced_height, 0);
    assert!(state.last_checkpoint.is_none());
    assert!(state.last_block_hash.is_none());
}
