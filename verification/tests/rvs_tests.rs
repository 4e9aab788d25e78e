use mahala::crypto::{hash_data, KeyPair};
use mahala::rvs::{RVSConfig, RVS};

#[test]
fn test_rvs_creation() {
    let rvs = RVS::new(RVSConfig::default());
    assert_eq!(rvs.active_validators_count(), 0);
}

#[test]
fn test_register_validator() {
    let mut rvs = RVS::new(RVSConfig::default());
    let keypair = KeyPair::new();
    rvs.register_validator(*keypair.public_key(), *keypair.public_key());
    assert_eq!(rvs.active_validators_count(), 1);
}

#[test]
fn test_select_validators() {
    let mut rvs = RVS::new(RVSConfig { validator_count: 3, ..Default::default() });
    for _ in 0..5 {
        let keypair = KeyPair::new();
        rvs.register_validator(*keypair.public_key(), *keypair.public_key());
    }
    let previous_hash = hash_data(b"test");
    let selection = rvs.select_validators(previous_hash);
    assert_eq!(selection.selected_validators.len(), 3);
}

#[test]
fn test_quorum_calculation() {
    let mut rvs = RVS::new(RVSConfig::default());
    for _ in 0..10 {
        let keypair = KeyPair::new();
        rvs.register_validator(*keypair.public_key(), *keypair.public_key());
    }
    assert_eq!(rvs.required_quorum(), 7);
}

#[test]
fn quorum_rounds_up() {
    let mut rvs = RVS::new(RVSConfig::default());
    for _ in 0..3 {
        let keypair = KeyPair::new();
        rvs.register_validator(*keypair.public_key(), *keypair.public_key());
    }
    assert_eq!(rvs.required_quorum(), 3);
}

#[test]
fn selection_is_deterministic() {
    let mut rvs = RVS::new(RVSConfig { validator_count: 4, ..Default::default() });
    for i in 0..6u8 {
        let keypair = KeyPair::from_seed(&[i; 32]);
        rvs.register_validator(*keypair.public_key(), *keypair.public_key());
    }
    let seed = hash_data(b"round seed");
    let s1 = rvs.select_validators(seed);
    let s2 = rvs.select_validators(seed);
    assert_eq!(s1.selected_validators, s2.selected_validators);
    assert!(rvs.is_validator_selected(&s1.selected_validators[0], &s2));
}

#[test]
fn unregister_validator_removes_entry() {
    let mut rvs = RVS::new(RVSConfig::default());
    let keypair = KeyPair::new();
    rvs.register_validator(*keypair.public_key(), *keypair.public_key());
    rvs.unregister_validator(keypair.public_key());
    assert_eq!(rvs.active_validators_count(), 0);
}
