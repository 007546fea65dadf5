//! The token descriptor and the status summary built from it.

use vstd::prelude::*;
use crate::account::Account;

verus! {

/// The token descriptor: its names, supply, owner and fee schedule.
#[derive(Debug)]
pub struct Metadata {
    pub logo: String,
    pub name: String,
    pub symbol: String,
    pub decimals: u8,
    pub total_supply: u64,
    /// The only account that may mint, change settings or burn on behalf of others.
    pub owner: Account,
    pub mintable: bool,
    pub burnable: bool,
    /// Charged to the sender of each transfer, transferFrom and approve.
    pub fee: u64,
    /// Receives every fee.
    pub fee_to: Account,
}

/// A descriptor with strings as characters and accounts as bytes.
pub struct MetadataView {
    pub logo: Seq<char>,
    pub name: Seq<char>,
    pub symbol: Seq<char>,
    pub decimals: u8,
    pub total_supply: u64,
    pub owner: Seq<u8>,
    pub mintable: bool,
    pub burnable: bool,
    pub fee: u64,
    pub fee_to: Seq<u8>,
}

impl View for Metadata {
    type V = MetadataView;

    open spec fn view(&self) -> MetadataView {
        MetadataView {
            logo: self.logo@,
            name: self.name@,
            symbol: self.symbol@,
            decimals: self.decimals,
            total_supply: self.total_supply,
            owner: self.owner@,
            mintable: self.mintable,
            burnable: self.burnable,
            fee: self.fee,
            fee_to: self.fee_to@,
        }
    }
}

impl Clone for Metadata {
    fn clone(&self) -> (r: Self)
        ensures
            r@ == self@,
    {
        Metadata {
            logo: self.logo.clone(),
            name: self.name.clone(),
            symbol: self.symbol.clone(),
            decimals: self.decimals,
            total_supply: self.total_supply,
            owner: self.owner.clone(),
            mintable: self.mintable,
            burnable: self.burnable,
            fee: self.fee,
            fee_to: self.fee_to.clone(),
        }
    }
}

impl Default for Metadata {
    /// Empty names, no supply, no fee, mint and burn allowed, and the anonymous
    /// account as owner and fee receiver.
    fn default() -> (r: Self)
        ensures
            r@ == (MetadataView {
                logo: Seq::empty(),
                name: Seq::empty(),
                symbol: Seq::empty(),
                decimals: 0,
                total_supply: 0,
                owner: seq![4u8],
                mintable: true,
                burnable: true,
                fee: 0,
                fee_to: seq![4u8],
            }),
    {
        Metadata {
            logo: String::new(),
            name: String::new(),
            symbol: String::new(),
            decimals: 0,
            total_supply: 0,
            owner: Account::anonymous(),
            mintable: true,
            burnable: true,
            fee: 0,
            fee_to: Account::anonymous(),
        }
    }
}

/// A summary of the token and of the ledger's state.
#[derive(Debug)]
pub struct TokenInfo {
    pub metadata: Metadata,
    pub fee_to: Account,
    /// Number of records in the history log.
    pub history_size: usize,
    /// Timestamp of the genesis record.
    pub deploy_time: u64,
    /// Number of accounts with a non-zero balance.
    pub holder_number: usize,
    /// Cycles held by the hosting canister, as the host reported them.
    pub cycles: u64,
}

} // verus!
