use vstd::prelude::*;

verus! {

/// Price of one byte of storage, in yoctoNEAR.
pub const YOCTO_PER_BYTE: u128 = 10_000_000_000_000_000_000;

/// Bytes of a token without metadata and royalties.
pub const TOKEN_BYTES: u128 = 360;

/// Bytes of a single royalty, approval or map entry.
pub const COMMON_BYTES: u128 = 80;

/// Storage stake for `bytes` bytes at the current price.
pub open spec fn stake_of(bytes: int) -> int {
    bytes * YOCTO_PER_BYTE
}

/// Storage prices that an NFT store charges.
pub struct StorageCosts {
    pub storage_price_per_byte: u128,
    /// Stake for a single royalty, approval or map entry.
    pub common: u128,
    /// Stake for a bare token.
    pub token: u128,
}

impl StorageCosts {
    pub fn new(storage_price_per_byte: u128) -> (r: StorageCosts)
        ensures
            r.storage_price_per_byte == storage_price_per_byte,
            r.common == stake_of(COMMON_BYTES as int),
            r.token == stake_of(TOKEN_BYTES as int),
    {
        StorageCosts {
            storage_price_per_byte,
            common: COMMON_BYTES * YOCTO_PER_BYTE,
            token: TOKEN_BYTES * YOCTO_PER_BYTE,
        }
    }
}

/// Storage prices that the auction market charges.
pub struct StorageCostsMarket {
    pub storage_price_per_byte: u128,
    /// Deposit held for each listing.
    pub list: u128,
}

impl StorageCostsMarket {
    pub fn new(storage_price_per_byte: u128) -> (r: StorageCostsMarket)
        ensures
            r.storage_price_per_byte == storage_price_per_byte,
            r.list == stake_of(TOKEN_BYTES as int),
    {
        StorageCostsMarket { storage_price_per_byte, list: TOKEN_BYTES * YOCTO_PER_BYTE }
    }
}

} // verus!
