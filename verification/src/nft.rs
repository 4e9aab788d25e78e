//! A simple non-fungible token contract: minting, listings, purchases with
//! creator royalties, and transfers.
use vstd::prelude::*;

use crate::bytesutil::{append_bytes, bytes32_eq};
use crate::clock::now_ts;
use crate::crypto::{blake3_of, hash_data};
use crate::encoding::{push_i64_le, spec_i64_le};
use crate::hexcode::{hex_encode, hex_of};
use crate::{Amount, PublicKey, Timestamp};
use vstd::slice::slice_subrange;
use vstd::utf8::encode_utf8;

verus! {

/// The largest allowed creator royalty, in percent.
pub const MAX_ROYALTY_PERCENT: u8 = 10;

/// The kind of a token.
#[derive(Clone, Copy, Debug, PartialEq, Eq, Structural)]
pub enum NFTType {
    /// Digital art.
    Art,
    /// Music.
    Music,
    /// Video.
    Video,
    /// A three-dimensional model.
    Model3D,
    /// Virtual land.
    VirtualLand,
    /// A rental contract.
    RentalContract,
    /// A voucher for a real service.
    ServiceTicket,
    /// A voucher for a product.
    ProductVoucher,
}

/// Description of a token.
#[derive(Clone, Debug)]
pub struct NFTMetadata {
    /// Name of the token.
    pub name: String,
    /// Description.
    pub description: String,
    /// Kind of the token.
    pub nft_type: NFTType,
    /// Where the medium lives.
    pub media_url: String,
    /// Where the thumbnail lives.
    pub thumbnail_url: String,
    /// Further attributes, as key and value.
    pub attributes: Vec<(String, String)>,
}

/// A token.
#[derive(Clone, Debug)]
pub struct NFT {
    /// The token's identifier.
    pub id: String,
    /// The current owner.
    pub owner: PublicKey,
    /// The original creator, who receives royalties.
    pub creator: PublicKey,
    /// The token's description.
    pub metadata: NFTMetadata,
    /// When the token was minted.
    pub created_at: Timestamp,
    /// The creator's royalty in percent, at most `MAX_ROYALTY_PERCENT`.
    pub royalty_percentage: u8,
}

/// A token offered for sale.
#[derive(Clone, Debug)]
pub struct NFTListing {
    /// The offered token's identifier.
    pub nft_id: String,
    /// The seller.
    pub seller: PublicKey,
    /// The asked price, in micro-units.
    pub price: Amount,
    /// When the offer was made.
    pub listed_at: Timestamp,
    /// When the offer lapses, if ever.
    pub expires_at: Option<Timestamp>,
}

/// The outcome of a purchase.
#[derive(Clone, Debug)]
pub struct NFTTransferResult {
    /// The traded token's identifier.
    pub nft_id: String,
    /// The new owner.
    pub new_owner: PublicKey,
    /// The seller.
    pub seller: PublicKey,
    /// The creator.
    pub creator: PublicKey,
    /// What the buyer paid, in micro-units.
    pub total_paid: Amount,
    /// What the seller receives, in micro-units.
    pub seller_receives: Amount,
    /// What the creator receives as royalty, in micro-units.
    pub creator_receives: Amount,
}

/// The errors of the contract.
#[derive(Clone, Copy, Debug, PartialEq, Eq, Structural)]
pub enum NFTError {
    /// No token under that identifier.
    NotFound,
    /// The caller does not own the token.
    NotOwner,
    /// The royalty exceeds the allowed maximum.
    RoyaltyTooHigh,
    /// The token is already offered for sale.
    AlreadyListed,
    /// The token is not offered for sale.
    NotListed,
    /// The offer has lapsed.
    ListingExpired,
    /// The payment does not reach the asked price.
    InsufficientPayment,
}

/// The identifying fields of a token, as the contract's rules see them.
pub struct NFTKey {
    pub id: Seq<char>,
    pub owner: Seq<u8>,
    pub creator: Seq<u8>,
    pub royalty_percentage: u8,
}

/// The identifying fields of a listing.
pub struct ListingKey {
    pub nft_id: Seq<char>,
    pub seller: Seq<u8>,
    pub price: i64,
    pub expires_at: Option<i64>,
}

/// The views of the stored tokens.
pub open spec fn spec_nft_keys(s: Seq<NFT>) -> Seq<NFTKey> {
    Seq::new(
        s.len(),
        |i: int|
            NFTKey {
                id: s[i].id@,
                owner: s[i].owner@,
                creator: s[i].creator@,
                royalty_percentage: s[i].royalty_percentage,
            },
    )
}

/// The views of the stored listings.
pub open spec fn spec_listing_keys(s: Seq<NFTListing>) -> Seq<ListingKey> {
    Seq::new(
        s.len(),
        |i: int|
            ListingKey {
                nft_id: s[i].nft_id@,
                seller: s[i].seller@,
                price: s[i].price,
                expires_at: s[i].expires_at,
            },
    )
}

/// The identifier a mint produces: the first sixteen bytes of the digest of
/// creator, name and timestamp, in hexadecimal.
pub open spec fn spec_mint_id(creator: Seq<u8>, name: Seq<char>, now: i64) -> Seq<char> {
    hex_of(blake3_of(creator + encode_utf8(name) + spec_i64_le(now)).subrange(0, 16))
}

/// The expiry of a listing offered for a number of days: now plus the
/// days, held within the machine range.
pub open spec fn spec_expiry(now: i64, days: u64) -> i64 {
    if now + days * 86_400 > i64::MAX {
        i64::MAX
    } else {
        (now + days * 86_400) as i64
    }
}

/// The royalty of a purchase: the royalty percentage of the payment.
pub open spec fn spec_royalty(payment: int, percentage: u8) -> int {
    payment * percentage / 100
}

/// What a successful mint at a time does: the returned identifier is
/// derived from creator, name and time, and the token is stored under it —
/// replacing any token already stored under the same identifier, appended
/// otherwise.
pub open spec fn spec_mint_effects(
    nfts: Seq<NFTKey>,
    nfts2: Seq<NFTKey>,
    creator: Seq<u8>,
    name: Seq<char>,
    royalty_percentage: u8,
    id: Seq<char>,
    now: i64,
) -> bool {
    let idv = spec_mint_id(creator, name, now);
    let key = NFTKey { id: idv, owner: creator, creator: creator, royalty_percentage };
    &&& id == idv
    &&& (if exists|j: int| 0 <= j < nfts.len() && (#[trigger] nfts[j]).id == idv {
        exists|j: int|
            0 <= j < nfts.len() && (#[trigger] nfts[j]).id == idv && nfts2 == nfts.update(j, key)
    } else {
        nfts2 == nfts.push(key)
    })
}

/// Token identifiers are pairwise distinct, so are listed tokens, and no
/// royalty exceeds the maximum.
pub open spec fn spec_contract_wf(nfts: Seq<NFTKey>, listings: Seq<ListingKey>) -> bool {
    &&& (forall|i: int, j: int|
        0 <= i < j < nfts.len() ==> (#[trigger] nfts[i]).id != (#[trigger] nfts[j]).id)
    &&& (forall|i: int, j: int|
        0 <= i < j < listings.len() ==> (#[trigger] listings[i]).nft_id != (
        #[trigger] listings[j]).nft_id)
    &&& (forall|i: int| 0 <= i < nfts.len() ==> (#[trigger] nfts[i]).royalty_percentage <= MAX_ROYALTY_PERCENT)
}

/// The token contract: the minted tokens and the open listings.
pub struct NFTContract {
    nfts: Vec<NFT>,
    listings: Vec<NFTListing>,
}

impl NFTContract {
    /// The stored tokens' identifying fields.
    pub closed spec fn spec_nfts(self) -> Seq<NFTKey> {
        spec_nft_keys(self.nfts@)
    }

    /// The open listings' identifying fields.
    pub closed spec fn spec_listings(self) -> Seq<ListingKey> {
        spec_listing_keys(self.listings@)
    }

    /// The contract is well formed.
    pub open spec fn wf(self) -> bool {
        spec_contract_wf(self.spec_nfts(), self.spec_listings())
    }

    /// Creates an empty contract.
    pub fn new() -> (r: Self)
        ensures
            r.wf(),
            r.spec_nfts() == Seq::<NFTKey>::empty(),
            r.spec_listings() == Seq::<ListingKey>::empty(),
    {
        let r = NFTContract { nfts: Vec::new(), listings: Vec::new() };
        proof {
            assert(r.spec_nfts() =~= Seq::<NFTKey>::empty());
            assert(r.spec_listings() =~= Seq::<ListingKey>::empty());
        }
        r
    }

    /// Finds the token under an identifier.
    fn nft_index(&self, nft_id: &String) -> (r: Option<usize>)
        ensures
            r matches Some(i) ==> i < self.spec_nfts().len() && (self.spec_nfts()[i as int]).id
                == nft_id@ && (forall|j: int|
                0 <= j < i ==> (#[trigger] self.spec_nfts()[j]).id != nft_id@),
            r is None ==> forall|j: int|
                0 <= j < self.spec_nfts().len() ==> (#[trigger] self.spec_nfts()[j]).id != nft_id@,
    {
        let mut i: usize = 0;
        while i < self.nfts.len()
            invariant
                i <= self.nfts@.len(),
                forall|j: int|
                    0 <= j < i ==> (#[trigger] spec_nft_keys(self.nfts@)[j]).id != nft_id@,
            decreases self.nfts@.len() - i,
        {
            if self.nfts[i].id == *nft_id {
                proof {
                    assert((spec_nft_keys(self.nfts@)[i as int]).id == nft_id@);
                }
                return Some(i);
            }
            i += 1;
        }
        None
    }

    /// Finds the listing of a token.
    fn listing_index(&self, nft_id: &String) -> (r: Option<usize>)
        ensures
            r matches Some(i) ==> i < self.spec_listings().len() && (self.spec_listings()[
                i as int]).nft_id == nft_id@ && (forall|j: int|
                0 <= j < i ==> (#[trigger] self.spec_listings()[j]).nft_id != nft_id@),
            r is None ==> forall|j: int|
                0 <= j < self.spec_listings().len() ==> (#[trigger] self.spec_listings()[j]).nft_id
                    != nft_id@,
    {
        let mut i: usize = 0;
        while i < self.listings.len()
            invariant
                i <= self.listings@.len(),
                forall|j: int|
                    0 <= j < i ==> (#[trigger] spec_listing_keys(self.listings@)[j]).nft_id
                        != nft_id@,
            decreases self.listings@.len() - i,
        {
            if self.listings[i].nft_id == *nft_id {
                proof {
                    assert((spec_listing_keys(self.listings@)[i as int]).nft_id == nft_id@);
                }
                return Some(i);
            }
            i += 1;
        }
        None
    }

    /// Mints a token at the given time: the creator becomes the owner, the
    /// royalty must not exceed the maximum, and the identifier is derived
    /// from creator, name and time. A token already stored under the same
    /// identifier is replaced.
    pub fn mint_at(
        &mut self,
        creator: PublicKey,
        metadata: NFTMetadata,
        royalty_percentage: u8,
        now: Timestamp,
    ) -> (r: Result<String, NFTError>)
        requires
            old(self).wf(),
        ensures
            final(self).wf(),
            final(self).spec_listings() == old(self).spec_listings(),
            r is Ok <==> royalty_percentage <= MAX_ROYALTY_PERCENT,
            r is Err ==> final(self).spec_nfts() == old(self).spec_nfts(),
            r matches Ok(id) ==> spec_mint_effects(
                old(self).spec_nfts(),
                final(self).spec_nfts(),
                creator@,
                metadata.name@,
                royalty_percentage,
                id@,
                now,
            ),
    {
        if royalty_percentage > MAX_ROYALTY_PERCENT {
            return Err(NFTError::RoyaltyTooHigh);
        }
        let mut data: Vec<u8> = Vec::new();
        append_bytes(&mut data, creator.as_slice());
        append_bytes(&mut data, metadata.name.as_str().as_bytes());
        push_i64_le(&mut data, now);
        proof {
            assert(data@ =~= creator@ + encode_utf8(metadata.name@) + spec_i64_le(now));
        }
        let digest = hash_data(data.as_slice());
        let head = slice_subrange(digest.as_slice(), 0, 16);
        let nft_id = hex_encode(head);
        let nft = NFT {
            id: nft_id.clone(),
            owner: creator,
            creator,
            metadata,
            created_at: now,
            royalty_percentage,
        };
        let ghost idv = nft_id@;
        let ghost key = NFTKey {
            id: idv,
            owner: creator@,
            creator: creator@,
            royalty_percentage: royalty_percentage,
        };
        let existing = self.nft_index(&nft_id);
        match existing {
            Option::Some(i) => {
                self.nfts.set(i, nft);
                proof {
                    let ns = old(self).spec_nfts();
                    assert(ns[i as int].id == idv);
                    assert(self.spec_nfts() =~= ns.update(i as int, key));
                    assert forall|a: int, b: int|
                        0 <= a < b < self.spec_nfts().len() implies (
                    #[trigger] self.spec_nfts()[a]).id != (#[trigger] self.spec_nfts()[b]).id by {
                        assert(ns[a].id != ns[b].id);
                    }
                    assert forall|a: int|
                        0 <= a < self.spec_nfts().len() implies (
                    #[trigger] self.spec_nfts()[a]).royalty_percentage <= MAX_ROYALTY_PERCENT by {
                        assert(ns[a].royalty_percentage <= MAX_ROYALTY_PERCENT);
                    }
                }
            },
            Option::None => {
                self.nfts.push(nft);
                proof {
                    let ns = old(self).spec_nfts();
                    assert(self.spec_nfts() =~= ns.push(key));
                    assert forall|a: int, b: int|
                        0 <= a < b < self.spec_nfts().len() implies (
                    #[trigger] self.spec_nfts()[a]).id != (#[trigger] self.spec_nfts()[b]).id by {
                        if b < ns.len() {
                            assert(ns[a].id != ns[b].id);
                        } else {
                            assert(ns[a].id != idv);
                        }
                    }
                    assert forall|a: int|
                        0 <= a < self.spec_nfts().len() implies (
                    #[trigger] self.spec_nfts()[a]).royalty_percentage <= MAX_ROYALTY_PERCENT by {
                        if a < ns.len() {
                            assert(ns[a].royalty_percentage <= MAX_ROYALTY_PERCENT);
                        }
                    }
                }
            },
        }
        Ok(nft_id)
    }

    /// Mints a token at the current time.
    pub fn mint(&mut self, creator: PublicKey, metadata: NFTMetadata, royalty_percentage: u8) -> (r:
        Result<String, NFTError>)
        requires
            old(self).wf(),
        ensures
            final(self).wf(),
            final(self).spec_listings() == old(self).spec_listings(),
            r is Ok <==> royalty_percentage <= MAX_ROYALTY_PERCENT,
            r is Err ==> final(self).spec_nfts() == old(self).spec_nfts(),
            r matches Ok(id) ==> exists|t: i64|
                spec_mint_effects(
                    old(self).spec_nfts(),
                    final(self).spec_nfts(),
                    creator@,
                    metadata.name@,
                    royalty_percentage,
                    id@,
                    t,
                ),
    {
        let ghost name = metadata.name@;
        let now = now_ts();
        let r = self.mint_at(creator, metadata, royalty_percentage, now);
        proof {
            match &r {
                Ok(id) => {
                    assert(spec_mint_effects(
                        old(self).spec_nfts(),
                        self.spec_nfts(),
                        creator@,
                        name,
                        royalty_percentage,
                        id@,
                        now,
                    ));
                },
                Err(_) => {
                },
            }
        }
        r
    }

    /// Offers a token for sale at the given time: the token must exist, the
    /// seller must own it, and it must not be listed already; an optional
    /// duration in days sets the expiry.
    pub fn list_for_sale_at(
        &mut self,
        nft_id: &String,
        seller: &PublicKey,
        price: Amount,
        duration_days: Option<u64>,
        now: Timestamp,
    ) -> (r: Result<(), NFTError>)
        requires
            old(self).wf(),
        ensures
            final(self).wf(),
            final(self).spec_nfts() == old(self).spec_nfts(),
            r == Err::<(), NFTError>(NFTError::NotFound) <==> !(exists|j: int|
                0 <= j < old(self).spec_nfts().len() && (#[trigger] old(self).spec_nfts()[j]).id
                    == nft_id@),
            r == Err::<(), NFTError>(NFTError::NotOwner) <==> (exists|j: int|
                0 <= j < old(self).spec_nfts().len() && (#[trigger] old(self).spec_nfts()[j]).id
                    == nft_id@ && old(self).spec_nfts()[j].owner != seller@),
            r == Err::<(), NFTError>(NFTError::AlreadyListed) <==> (exists|j: int|
                0 <= j < old(self).spec_nfts().len() && (#[trigger] old(self).spec_nfts()[j]).id
                    == nft_id@ && old(self).spec_nfts()[j].owner == seller@) && (exists|j: int|
                0 <= j < old(self).spec_listings().len() && (#[trigger] old(
                    self,
                ).spec_listings()[j]).nft_id == nft_id@),
            r is Ok <==> (exists|j: int|
                0 <= j < old(self).spec_nfts().len() && (#[trigger] old(self).spec_nfts()[j]).id
                    == nft_id@ && old(self).spec_nfts()[j].owner == seller@) && !(exists|j: int|
                0 <= j < old(self).spec_listings().len() && (#[trigger] old(
                    self,
                ).spec_listings()[j]).nft_id == nft_id@),
            r is Err ==> final(self).spec_listings() == old(self).spec_listings(),
            r is Ok ==> final(self).spec_listings() == old(self).spec_listings().push(
                ListingKey {
                    nft_id: nft_id@,
                    seller: seller@,
                    price: price,
                    expires_at: match duration_days {
                        Option::None => Option::None,
                        Option::Some(d) => Option::Some(spec_expiry(now, d)),
                    },
                },
            ),
    {
        let ni = self.nft_index(nft_id);
        let i = match ni {
            Option::None => {
                return Err(NFTError::NotFound);
            },
            Option::Some(i) => i,
        };
        if !bytes32_eq(&self.nfts[i].owner, seller) {
            proof {
                assert((self.spec_nfts()[i as int]).id == nft_id@);
                assert((self.spec_nfts()[i as int]).owner != seller@);
            }
            return Err(NFTError::NotOwner);
        }
        proof {
            assert((self.spec_nfts()[i as int]).id == nft_id@);
            assert((self.spec_nfts()[i as int]).owner == seller@);
            assert forall|a: int|
                0 <= a < self.spec_nfts().len() && (#[trigger] self.spec_nfts()[a]).id == nft_id@
                    implies self.spec_nfts()[a].owner == seller@ by {
                if a != i as int {
                    assert(self.spec_nfts()[a].id != self.spec_nfts()[i as int].id);
                }
            }
        }
        if let Option::Some(_j) = self.listing_index(nft_id) {
            return Err(NFTError::AlreadyListed);
        }
        let expires_at: Option<i64> = match duration_days {
            Option::None => None,
            Option::Some(days) => {
                proof {
                    assert((days as int) * 86_400 >= 0) by (nonlinear_arith)
                        requires
                            days >= 0;
                    assert((days as int) * 86_400 <= (u64::MAX as int) * 86_400)
                        by (nonlinear_arith)
                        requires
                            days <= u64::MAX;
                }
                let until: i128 = (now as i128) + (days as i128) * 86_400;
                if until > i64::MAX as i128 {
                    Some(i64::MAX)
                } else {
                    Some(until as i64)
                }
            },
        };
        let listing = NFTListing {
            nft_id: nft_id.clone(),
            seller: *seller,
            price,
            listed_at: now,
            expires_at,
        };
        let ghost lkey = ListingKey {
            nft_id: nft_id@,
            seller: seller@,
            price: price,
            expires_at: listing.expires_at,
        };
        self.listings.push(listing);
        proof {
            let ls = old(self).spec_listings();
            assert(self.spec_listings() =~= ls.push(lkey));
            assert forall|a: int, b: int|
                0 <= a < b < self.spec_listings().len() implies (
            #[trigger] self.spec_listings()[a]).nft_id != (#[trigger] self.spec_listings()[b]).nft_id by {
                if b < ls.len() {
                    assert(ls[a].nft_id != ls[b].nft_id);
                } else {
                    assert(ls[a].nft_id != nft_id@);
                }
            }
        }
        Ok(())
    }

    /// Offers a token for sale at the current time.
    pub fn list_for_sale(
        &mut self,
        nft_id: &String,
        seller: &PublicKey,
        price: Amount,
        duration_days: Option<u64>,
    ) -> (r: Result<(), NFTError>)
        requires
            old(self).wf(),
        ensures
            final(self).wf(),
            final(self).spec_nfts() == old(self).spec_nfts(),
            r == Err::<(), NFTError>(NFTError::NotFound) <==> !(exists|j: int|
                0 <= j < old(self).spec_nfts().len() && (#[trigger] old(self).spec_nfts()[j]).id
                    == nft_id@),
            r == Err::<(), NFTError>(NFTError::NotOwner) <==> (exists|j: int|
                0 <= j < old(self).spec_nfts().len() && (#[trigger] old(self).spec_nfts()[j]).id
                    == nft_id@ && old(self).spec_nfts()[j].owner != seller@),
            r == Err::<(), NFTError>(NFTError::AlreadyListed) <==> (exists|j: int|
                0 <= j < old(self).spec_nfts().len() && (#[trigger] old(self).spec_nfts()[j]).id
                    == nft_id@ && old(self).spec_nfts()[j].owner == seller@) && (exists|j: int|
                0 <= j < old(self).spec_listings().len() && (#[trigger] old(
                    self,
                ).spec_listings()[j]).nft_id == nft_id@),
            r is Ok <==> (exists|j: int|
                0 <= j < old(self).spec_nfts().len() && (#[trigger] old(self).spec_nfts()[j]).id
                    == nft_id@ && old(self).spec_nfts()[j].owner == seller@) && !(exists|j: int|
                0 <= j < old(self).spec_listings().len() && (#[trigger] old(
                    self,
                ).spec_listings()[j]).nft_id == nft_id@),
            r is Err ==> final(self).spec_listings() == old(self).spec_listings(),
            r is Ok ==> (match duration_days {
                Option::None => final(self).spec_listings() == old(self).spec_listings().push(
                    ListingKey {
                        nft_id: nft_id@,
                        seller: seller@,
                        price: price,
                        expires_at: Option::None,
                    },
                ),
                Option::Some(d) => exists|t: i64|
                    #![trigger spec_expiry(t, d)]
                    final(self).spec_listings() == old(self).spec_listings().push(
                        ListingKey {
                            nft_id: nft_id@,
                            seller: seller@,
                            price: price,
                            expires_at: Option::Some(spec_expiry(t, d)),
                        },
                    ),
            }),
    {
        let now = now_ts();
        let r = self.list_for_sale_at(nft_id, seller, price, duration_days, now);
        proof {
            if r is Ok {
                assert(final(self).spec_listings() == old(self).spec_listings().push(
                    ListingKey {
                        nft_id: nft_id@,
                        seller: seller@,
                        price: price,
                        expires_at: match duration_days {
                            Option::None => Option::None,
                            Option::Some(d) => Option::Some(spec_expiry(now, d)),
                        },
                    },
                ));
            }
        }
        r
    }

    /// Buys a listed token at the given time: the listing must exist and
    /// not have lapsed, the payment must reach the price; the creator's
    /// royalty is taken from the payment, the rest goes to the seller, and
    /// ownership moves to the buyer. A lapsed listing is removed.
    pub fn buy_nft(&mut self, nft_id: &String, buyer: &PublicKey, payment: Amount, now: Timestamp)
        -> (r: Result<NFTTransferResult, NFTError>)
        requires
            old(self).wf(),
            payment >= 0,
        ensures
            final(self).wf(),
            r matches Ok(res) ==> ({
                &&& res.nft_id@ == nft_id@
                &&& res.new_owner@ == buyer@
                &&& res.total_paid == payment
                &&& res.seller_receives + res.creator_receives == payment
                &&& (exists|j: int|
                    #![trigger old(self).spec_nfts()[j]]
                    {
                        let ns = old(self).spec_nfts();
                        &&& 0 <= j < ns.len()
                        &&& ns[j].id == nft_id@
                        &&& res.creator_receives == spec_royalty(
                            payment as int,
                            ns[j].royalty_percentage,
                        )
                        &&& res.creator@ == ns[j].creator
                        &&& final(self).spec_nfts() == ns.update(
                            j,
                            NFTKey { owner: buyer@, ..ns[j] },
                        )
                    })
                &&& (exists|j: int|
                    #![trigger old(self).spec_listings()[j]]
                    {
                        let ls = old(self).spec_listings();
                        &&& 0 <= j < ls.len()
                        &&& ls[j].nft_id == nft_id@
                        &&& res.seller@ == ls[j].seller
                        &&& final(self).spec_listings() == ls.remove(j)
                    })
            }),
            r == Err::<NFTTransferResult, NFTError>(NFTError::NotListed) <==> !(exists|j: int|
                0 <= j < old(self).spec_listings().len() && (#[trigger] old(
                    self,
                ).spec_listings()[j]).nft_id == nft_id@),
            r == Err::<NFTTransferResult, NFTError>(NFTError::ListingExpired) <==> (exists|j: int|
                #![trigger old(self).spec_listings()[j]]
                {
                    let ls = old(self).spec_listings();
                    &&& 0 <= j < ls.len()
                    &&& ls[j].nft_id == nft_id@
                    &&& (ls[j].expires_at matches Some(e) && now > e)
                }),
            r == Err::<NFTTransferResult, NFTError>(NFTError::InsufficientPayment) <==> (exists|
                j: int|
                #![trigger old(self).spec_listings()[j]]
                {
                    let ls = old(self).spec_listings();
                    &&& 0 <= j < ls.len()
                    &&& ls[j].nft_id == nft_id@
                    &&& !(ls[j].expires_at matches Some(e) && now > e)
                    &&& payment < ls[j].price
                }),
            r is Ok <==> (exists|j: int|
                #![trigger old(self).spec_listings()[j]]
                {
                    let ls = old(self).spec_listings();
                    &&& 0 <= j < ls.len()
                    &&& ls[j].nft_id == nft_id@
                    &&& !(ls[j].expires_at matches Some(e) && now > e)
                    &&& payment >= ls[j].price
                }) && (exists|j: int|
                0 <= j < old(self).spec_nfts().len() && (#[trigger] old(self).spec_nfts()[j]).id
                    == nft_id@),
    {
        let li = match self.listing_index(nft_id) {
            Option::None => {
                return Err(NFTError::NotListed);
            },
            Option::Some(i) => i,
        };
        let ghost ls = old(self).spec_listings();
        proof {
            assert((ls[li as int]).nft_id == nft_id@);
            assert forall|a: int|
                0 <= a < ls.len() && (#[trigger] ls[a]).nft_id == nft_id@ implies a == li as int by {
                if a != li as int {
                    assert(ls[a].nft_id != ls[li as int].nft_id);
                }
            }
        }
        if let Option::Some(expires_at) = self.listings[li].expires_at {
            if now > expires_at {
                self.listings.remove(li);
                proof {
                    assert(self.spec_listings() =~= ls.remove(li as int));
                    lemma_listing_unique_after_remove(ls, li as int);
                }
                return Err(NFTError::ListingExpired);
            }
        }
        if payment < self.listings[li].price {
            return Err(NFTError::InsufficientPayment);
        }
        let ni = match self.nft_index(nft_id) {
            Option::None => {
                return Err(NFTError::NotFound);
            },
            Option::Some(i) => i,
        };
        let royalty_pct = self.nfts[ni].royalty_percentage;
        proof {
            assert((self.spec_nfts()[ni as int]).royalty_percentage == royalty_pct);
            assert(royalty_pct <= MAX_ROYALTY_PERCENT);
            assert((payment as int) * (royalty_pct as int) >= 0) by (nonlinear_arith)
                requires
                    payment >= 0,
                    royalty_pct >= 0;
            assert((payment as int) * (royalty_pct as int) / 100 <= payment) by (nonlinear_arith)
                requires
                    payment >= 0,
                    0 <= royalty_pct <= 100;
        }
        let royalty_amount: i64 = (((payment as i128) * (royalty_pct as i128)) / 100) as i64;
        let seller_amount: i64 = payment - royalty_amount;
        let seller = self.listings[li].seller;
        let creator = self.nfts[ni].creator;
        let old_nft = &self.nfts[ni];
        let updated = NFT {
            id: old_nft.id.clone(),
            owner: *buyer,
            creator: old_nft.creator,
            metadata: old_nft.metadata.clone(),
            created_at: old_nft.created_at,
            royalty_percentage: old_nft.royalty_percentage,
        };
        self.nfts.set(ni, updated);
        proof {
            let ns = old(self).spec_nfts();
            assert(self.spec_nfts() =~= ns.update(
                ni as int,
                NFTKey { owner: buyer@, ..ns[ni as int] },
            ));
            assert forall|a: int, b: int|
                0 <= a < b < self.spec_nfts().len() implies (#[trigger] self.spec_nfts()[a]).id
                != (#[trigger] self.spec_nfts()[b]).id by {
                assert(ns[a].id != ns[b].id);
            }
            assert forall|a: int|
                0 <= a < self.spec_nfts().len() implies (
            #[trigger] self.spec_nfts()[a]).royalty_percentage <= MAX_ROYALTY_PERCENT by {
                assert(ns[a].royalty_percentage <= MAX_ROYALTY_PERCENT);
            }
        }
        self.listings.remove(li);
        proof {
            assert(self.spec_listings() =~= ls.remove(li as int));
            lemma_listing_unique_after_remove(ls, li as int);
        }
        Ok(
            NFTTransferResult {
                nft_id: nft_id.clone(),
                new_owner: *buyer,
                seller,
                creator,
                total_paid: payment,
                seller_receives: seller_amount,
                creator_receives: royalty_amount,
            },
        )
    }

    /// Moves a token to a new owner without payment: the token must exist
    /// and the caller must own it; any listing of it is withdrawn.
    pub fn transfer(&mut self, nft_id: &String, from: &PublicKey, to: &PublicKey) -> (r: Result<
        (),
        NFTError,
    >)
        requires
            old(self).wf(),
        ensures
            final(self).wf(),
            r == Err::<(), NFTError>(NFTError::NotFound) <==> !(exists|j: int|
                0 <= j < old(self).spec_nfts().len() && (#[trigger] old(self).spec_nfts()[j]).id
                    == nft_id@),
            r == Err::<(), NFTError>(NFTError::NotOwner) <==> (exists|j: int|
                0 <= j < old(self).spec_nfts().len() && (#[trigger] old(self).spec_nfts()[j]).id
                    == nft_id@ && old(self).spec_nfts()[j].owner != from@),
            r is Ok <==> (exists|j: int|
                0 <= j < old(self).spec_nfts().len() && (#[trigger] old(self).spec_nfts()[j]).id
                    == nft_id@ && old(self).spec_nfts()[j].owner == from@),
            r is Ok ==> exists|j: int|
                #![trigger old(self).spec_nfts()[j]]
                {
                    let ns = old(self).spec_nfts();
                    &&& 0 <= j < ns.len()
                    &&& ns[j].id == nft_id@
                    &&& ns[j].owner == from@
                    &&& final(self).spec_nfts() == ns.update(j, NFTKey { owner: to@, ..ns[j] })
                },
            r is Err ==> final(self).spec_nfts() == old(self).spec_nfts(),
    {
        let ni = match self.nft_index(nft_id) {
            Option::None => {
                return Err(NFTError::NotFound);
            },
            Option::Some(i) => i,
        };
        if !bytes32_eq(&self.nfts[ni].owner, from) {
            proof {
                assert((self.spec_nfts()[ni as int]).id == nft_id@);
                assert((self.spec_nfts()[ni as int]).owner != from@);
            }
            return Err(NFTError::NotOwner);
        }
        proof {
            assert((self.spec_nfts()[ni as int]).id == nft_id@);
            assert((self.spec_nfts()[ni as int]).owner == from@);
            assert forall|a: int|
                0 <= a < self.spec_nfts().len() && (#[trigger] self.spec_nfts()[a]).id == nft_id@
                    implies self.spec_nfts()[a].owner == from@ by {
                if a != ni as int {
                    assert(self.spec_nfts()[a].id != self.spec_nfts()[ni as int].id);
                }
            }
        }
        let ghost ls = old(self).spec_listings();
        match self.listing_index(nft_id) {
            Option::Some(li) => {
                self.listings.remove(li);
                proof {
                    assert(self.spec_listings() =~= ls.remove(li as int));
                    lemma_listing_unique_after_remove(ls, li as int);
                }
            },
            Option::None => {
            },
        }
        let old_nft = &self.nfts[ni];
        let updated = NFT {
            id: old_nft.id.clone(),
            owner: *to,
            creator: old_nft.creator,
            metadata: old_nft.metadata.clone(),
            created_at: old_nft.created_at,
            royalty_percentage: old_nft.royalty_percentage,
        };
        self.nfts.set(ni, updated);
        proof {
            let ns = old(self).spec_nfts();
            assert(self.spec_nfts() =~= ns.update(
                ni as int,
                NFTKey { owner: to@, ..ns[ni as int] },
            ));
            assert forall|a: int, b: int|
                0 <= a < b < self.spec_nfts().len() implies (#[trigger] self.spec_nfts()[a]).id
                != (#[trigger] self.spec_nfts()[b]).id by {
                assert(ns[a].id != ns[b].id);
            }
            assert forall|a: int|
                0 <= a < self.spec_nfts().len() implies (
            #[trigger] self.spec_nfts()[a]).royalty_percentage <= MAX_ROYALTY_PERCENT by {
                assert(ns[a].royalty_percentage <= MAX_ROYALTY_PERCENT);
            }
        }
        Ok(())
    }

    /// The tokens an owner holds.
    pub fn get_nfts_by_owner(&self, owner: &PublicKey) -> (r: Vec<&NFT>)
        ensures
            forall|i: int|
                0 <= i < r@.len() ==> (#[trigger] r@[i]).owner@ == owner@,
            forall|j: int|
                0 <= j < self.spec_nfts().len() && (#[trigger] self.spec_nfts()[j]).owner == owner@
                    ==> exists|i: int| 0 <= i < r@.len() && (#[trigger] r@[i]).id@ == self.spec_nfts()[j].id,
    {
        let mut out: Vec<&NFT> = Vec::new();
        let mut i: usize = 0;
        while i < self.nfts.len()
            invariant
                i <= self.nfts@.len(),
                forall|k: int| 0 <= k < out@.len() ==> (#[trigger] out@[k]).owner@ == owner@,
                forall|j: int|
                    0 <= j < i && (#[trigger] spec_nft_keys(self.nfts@)[j]).owner == owner@
                        ==> exists|k: int|
                        0 <= k < out@.len() && (#[trigger] out@[k]).id@ == spec_nft_keys(
                            self.nfts@,
                        )[j].id,
            decreases self.nfts@.len() - i,
        {
            let ghost prevout = out@;
            if bytes32_eq(&self.nfts[i].owner, owner) {
                out.push(&self.nfts[i]);
                proof {
                    assert(out@[out@.len() - 1].id@ == spec_nft_keys(self.nfts@)[i as int].id);
                }
            }
            i += 1;
            proof {
                assert forall|j: int|
                    0 <= j < i && (#[trigger] spec_nft_keys(self.nfts@)[j]).owner == owner@
                        implies exists|k: int|
                    0 <= k < out@.len() && (#[trigger] out@[k]).id@ == spec_nft_keys(
                        self.nfts@,
                    )[j].id by {
                    if j < i - 1 {
                        let k0 = choose|k0: int|
                            0 <= k0 < prevout.len() && (#[trigger] prevout[k0]).id@
                                == spec_nft_keys(self.nfts@)[j].id;
                        assert(out@[k0].id@ == spec_nft_keys(self.nfts@)[j].id);
                    } else {
                        assert(out@[out@.len() - 1].id@ == spec_nft_keys(self.nfts@)[j].id);
                    }
                }
            }
        }
        out
    }

    /// The token under an identifier, if any.
    pub fn get_nft(&self, nft_id: &String) -> (r: Option<&NFT>)
        ensures
            r is Some <==> exists|j: int|
                0 <= j < self.spec_nfts().len() && (#[trigger] self.spec_nfts()[j]).id == nft_id@,
            r matches Some(n) ==> n.id@ == nft_id@,
    {
        match self.nft_index(nft_id) {
            Option::None => None,
            Option::Some(i) => {
                proof {
                    assert((self.spec_nfts()[i as int]).id == nft_id@);
                }
                Some(&self.nfts[i])
            },
        }
    }

    /// The listings that have not lapsed at the given time, each with its
    /// token.
    pub fn get_active_listings(&self, now: Timestamp) -> (r: Vec<(&NFT, &NFTListing)>)
        ensures
            forall|i: int|
                0 <= i < r@.len() ==> ((#[trigger] r@[i]).1.expires_at matches Some(e) ==> e > now)
                    && r@[i].0.id@ == r@[i].1.nft_id@,
    {
        let mut out: Vec<(&NFT, &NFTListing)> = Vec::new();
        let mut i: usize = 0;
        while i < self.listings.len()
            invariant
                i <= self.listings@.len(),
                forall|k: int|
                    0 <= k < out@.len() ==> ((#[trigger] out@[k]).1.expires_at matches Some(e) ==> e
                        > now) && out@[k].0.id@ == out@[k].1.nft_id@,
            decreases self.listings@.len() - i,
        {
            let listing = &self.listings[i];
            let live = match listing.expires_at {
                Option::None => true,
                Option::Some(e) => e > now,
            };
            if live {
                match self.nft_index(&listing.nft_id) {
                    Option::Some(ni) => {
                        proof {
                            assert((self.spec_nfts()[ni as int]).id == listing.nft_id@);
                        }
                        out.push((&self.nfts[ni], listing));
                    },
                    Option::None => {
                    },
                }
            }
            i += 1;
        }
        out
    }
}

impl Default for NFTContract {
    /// The empty contract.
    fn default() -> (r: Self)
        ensures
            r.wf(),
            r.spec_nfts() == Seq::<NFTKey>::empty(),
            r.spec_listings() == Seq::<ListingKey>::empty(),
    {
        NFTContract::new()
    }
}

/// Removing a listing keeps the remaining identifiers distinct.
proof fn lemma_listing_unique_after_remove(ls: Seq<ListingKey>, i: int)
    requires
        0 <= i < ls.len(),
        forall|a: int, b: int|
            0 <= a < b < ls.len() ==> (#[trigger] ls[a]).nft_id != (#[trigger] ls[b]).nft_id,
    ensures
        forall|a: int, b: int|
            0 <= a < b < ls.remove(i).len() ==> (#[trigger] ls.remove(i)[a]).nft_id != (
            #[trigger] ls.remove(i)[b]).nft_id,
{
    assert forall|a: int, b: int|
        0 <= a < b < ls.remove(i).len() implies (#[trigger] ls.remove(i)[a]).nft_id != (
    #[trigger] ls.remove(i)[b]).nft_id by {
        let a0 = if a < i {
            a
        } else {
            a + 1
        };
        let b0 = if b < i {
            b
        } else {
            b + 1
        };
        assert(ls[a0].nft_id != ls[b0].nft_id);
    }
}

} // verus!
