//! A placeholder client for the June side of the bridge.
//!
//! The live network call is not wired up; balances and verifications are
//! answered with fixed values, exactly as stated here.
use vstd::prelude::*;

use crate::MICRO;

verus! {

/// The fixed balance the placeholder reports, in micro-units.
pub const SIMULATED_JUNE_BALANCE: i64 = 100_000_000;

/// The June-side client.
pub struct JuneClient {
    api_url: String,
}

/// A June balance of an address.
#[derive(Clone, Debug)]
pub struct JuneBalance {
    /// The queried address.
    pub address: String,
    /// The balance, in micro-units.
    pub balance: i64,
    /// The currency label.
    pub currency: String,
}

/// The errors of the June client.
#[derive(Clone, Debug)]
pub enum JuneClientError {
    /// The network failed.
    Network(String),
    /// The reply could not be read.
    InvalidResponse,
    /// The address is unknown.
    AddressNotFound,
}

impl JuneClient {
    /// The configured endpoint.
    pub closed spec fn spec_api_url(self) -> Seq<char> {
        self.api_url@
    }

    /// Creates a client against the given endpoint.
    pub fn new(api_url: String) -> (r: Self)
        ensures
            r.spec_api_url() == api_url@,
    {
        JuneClient { api_url }
    }

    /// The balance of an address: the placeholder always reports the fixed
    /// simulated amount.
    pub fn get_balance(&self, address: &str) -> (r: Result<JuneBalance, JuneClientError>)
        ensures
            r matches Ok(b) && b.address@ == address@ && b.balance == SIMULATED_JUNE_BALANCE,
    {
        Ok(JuneBalance {
            address: address.to_owned(),
            balance: SIMULATED_JUNE_BALANCE,
            currency: "Ğ1".to_owned(),
        })
    }

    /// Whether a June transaction is valid: the placeholder accepts every
    /// hash.
    pub fn verify_transaction(&self, _tx_hash: &str) -> (r: Result<bool, JuneClientError>)
        ensures
            r matches Ok(b) && b == true,
    {
        Ok(true)
    }
}

} // verus!
