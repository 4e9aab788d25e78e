use mahala::crypto::KeyPair;
use mahala::nft::{NFTContract, NFTError, NFTMetadata, NFTType};
use mahala::MICRO;

fn metadata() -> NFTMetadata {
    NFTMetadata {
        name: "Test NFT".to_string(),
        description: "A test NFT".to_string(),
        nft_type: NFTType::Art,
        media_url: "ipfs://test".to_string(),
        thumbnail_url: "ipfs://thumb".to_string(),
        attributes: Vec::new(),
    }
}

#[test]
fn test_nft_mint() {
    let mut contract = NFTContract::new();
    let keypair = KeyPair::new();
    let result = contract.mint(*keypair.public_key(), metadata(), 5);
    assert!(result.is_ok());
}

#[test]
fn test_nft_list_and_buy() {
    let mut contract = NFTContract::new();
    let creator = KeyPair::new();
    let buyer = KeyPair::new();
    let nft_id = contract.mint(*creator.public_key(), metadata(), 5).unwrap();
    contract.list_for_sale(&nft_id, creator.public_key(), 100 * MICRO, None).unwrap();
    let result = contract.buy_nft(&nft_id, buyer.public_key(), 100 * MICRO, 1_700_000_000);
    assert!(result.is_ok());
    let transfer = result.unwrap();
    assert_eq!(transfer.seller_receives, 95 * MICRO);
    assert_eq!(transfer.creator_receives, 5 * MICRO);
}

#[test]
fn royalty_above_maximum_rejected() {
    let mut contract = NFTContract::new();
    let keypair = KeyPair::new();
    let result = contract.mint(*keypair.public_key(), metadata(), 11);
    assert_eq!(result.unwrap_err(), NFTError::RoyaltyTooHigh);
}

#[test]
fn buying_unlisted_token_fails() {
    let mut contract = NFTContract::new();
    let creator = KeyPair::new();
    let buyer = KeyPair::new();
    let nft_id = contract.mint(*creator.public_key(), metadata(), 5).unwrap();
    let result = contract.buy_nft(&nft_id, buyer.public_key(), 100 * MICRO, 0);
    assert_eq!(result.unwrap_err(), NFTError::NotListed);
}

#[test]
fn underpayment_fails() {
    let mut contract = NFTContract::new();
    let creator = KeyPair::new();
    let buyer = KeyPair::new();
    let nft_id = contract.mint(*creator.public_key(), metadata(), 5).unwrap();
    contract.list_for_sale(&nft_id, creator.public_key(), 100 * MICRO, None).unwrap();
    let result = contract.buy_nft(&nft_id, buyer.public_key(), 99 * MICRO, 0);
    assert_eq!(result.unwrap_err(), NFTError::InsufficientPayment);
}

#[test]
fn only_owner_can_list_or_transfer() {
    let mut contract = NFTContract::new();
    let creator = KeyPair::new();
    let stranger = KeyPair::new();
    let other = KeyPair::new();
    let nft_id = contract.mint(*creator.public_key(), metadata(), 5).unwrap();
    let listing = contract.list_for_sale(&nft_id, stranger.public_key(), MICRO, None);
    assert_eq!(listing.unwrap_err(), NFTError::NotOwner);
    let moved = contract.transfer(&nft_id, stranger.public_key(), other.public_key());
    assert_eq!(moved.unwrap_err(), NFTError::NotOwner);
    assert!(contract.transfer(&nft_id, creator.public_key(), other.public_key()).is_ok());
    let nft = contract.get_nft(&nft_id).unwrap();
    assert_eq!(&nft.owner, other.public_key());
}

#[test]
fn expired_listing_rejected() {
    let mut contract = NFTContract::new();
    let creator = KeyPair::new();
    let buyer = KeyPair::new();
    let nft_id = contract.mint_at(*creator.public_key(), metadata(), 5, 1_000).unwrap();
    contract
        .list_for_sale_at(&nft_id, creator.public_key(), MICRO, Some(1), 1_000)
        .unwrap();
    let late = 1_000 + 2 * 86_400;
    let result = contract.buy_nft(&nft_id, buyer.public_key(), MICRO, late);
    assert_eq!(result.unwrap_err(), NFTError::ListingExpired);
}
