use mahala::crypto::{generate_keypair, hash_data, hash_from_string, hash_to_string, sign,
    verify_signature, KeyPair};
use mahala::wallet::Wallet;
use mahala::vrf::VRF;
use ed25519_dalek::{Signer, Verifier};

#[test]
fn test_hash_data() {
    let data = b"test data";
    let hash = hash_data(data);
    assert_eq!(hash.len(), 32);
}

#[test]
fn test_hash_string_conversion() {
    let data = b"test";
    let hash = hash_data(data);
    let s = hash_to_string(&hash);
    let parsed = hash_from_string(&s).unwrap();
    assert_eq!(hash, parsed);
}

#[test]
fn test_keypair_generation() {
    let keypair = KeyPair::new();
    assert_eq!(keypair.public_key.len(), 32);
    assert_eq!(keypair.private_key.len(), 32);
}

#[test]
fn test_keypair_from_seed() {
    let seed = [0u8; 32];
    let keypair1 = KeyPair::from_seed(&seed);
    let keypair2 = KeyPair::from_seed(&seed);
    assert_eq!(keypair1.public_key, keypair2.public_key);
    assert_eq!(keypair1.private_key, keypair2.private_key);
}

#[test]
fn test_sign_and_verify() {
    let keypair = KeyPair::new();
    let data = b"test message";
    let signature = sign(data, keypair.private_key());
    assert!(verify_signature(data, &signature, keypair.public_key()));
}

#[test]
fn test_verify_fails_wrong_data() {
    let keypair = KeyPair::new();
    let data = b"test message";
    let wrong_data = b"wrong message";
    let signature = sign(data, keypair.private_key());
    assert!(!verify_signature(wrong_data, &signature, keypair.public_key()));
}

#[test]
fn test_verify_fails_wrong_key() {
    let keypair1 = KeyPair::new();
    let keypair2 = KeyPair::new();
    let data = b"test message";
    let signature = sign(data, keypair1.private_key());
    assert!(!verify_signature(data, &signature, keypair2.public_key()));
}

#[test]
fn test_wallet_creation() {
    let wallet = Wallet::new();
    assert_eq!(wallet.address.len(), 32);
}

#[test]
fn test_wallet_from_seed() {
    let seed = [0u8; 32];
    let wallet1 = Wallet::from_seed(&seed);
    let wallet2 = Wallet::from_seed(&seed);
    assert_eq!(wallet1.address, wallet2.address);
}

#[test]
fn test_vrf_generate() {
    let keypair = KeyPair::new();
    let message = b"test message";
    let vrf_output = VRF::generate(keypair.private_key(), message);
    assert_eq!(vrf_output.output.len(), 32);
}

#[test]
fn test_vrf_verify() {
    let keypair = KeyPair::new();
    let message = b"test message";
    let vrf_output = VRF::generate(keypair.private_key(), message);
    assert!(VRF::verify(
        keypair.public_key(),
        message,
        &vrf_output.output,
        &vrf_output.proof
    ));
}

#[test]
fn test_vrf_output_to_number() {
    let keypair = KeyPair::new();
    let message = b"test";
    let vrf_output = VRF::generate(keypair.private_key(), message);
    let number = VRF::output_to_number(&vrf_output.output);
    assert!(number < u64::MAX);
}

#[test]
fn hash_data_matches_blake3() {
    let digest = hash_data(b"abc");
    let expected = blake3::hash(b"abc");
    assert_eq!(&digest, expected.as_bytes());
}

#[test]
fn hash_to_string_known_bytes() {
    let zero = [0u8; 32];
    let s = hash_to_string(&zero);
    assert_eq!(s.len(), 64);
    assert!(s.chars().all(|c| c == '0'));
    let mut counting = [0u8; 32];
    counting[0] = 0x01;
    counting[1] = 0xab;
    let t = hash_to_string(&counting);
    assert!(t.starts_with("01ab"));
}

#[test]
fn hash_from_string_rejects_bad_hex() {
    assert!(hash_from_string("zz").is_err());
    assert!(hash_from_string("0123").is_err());
    let ok = "00".repeat(32);
    assert!(hash_from_string(&ok).is_ok());
}

#[test]
fn signature_verifies_with_dalek() {
    let keypair = KeyPair::new();
    let data = b"cross check";
    let signature = sign(data, keypair.private_key());
    let sk = ed25519_dalek::SigningKey::from_bytes(keypair.private_key());
    let expected = sk.sign(data);
    assert_eq!(signature, expected.to_bytes());
    let vk = ed25519_dalek::VerifyingKey::from_bytes(keypair.public_key()).unwrap();
    assert!(vk.verify(data, &ed25519_dalek::Signature::from_bytes(&signature)).is_ok());
}

#[test]
fn signing_twice_same_signature() {
    let keypair = generate_keypair();
    let data = b"deterministic";
    let s1 = sign(data, keypair.private_key());
    let s2 = sign(data, keypair.private_key());
    assert_eq!(s1, s2);
}
