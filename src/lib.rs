//! Settlement logic of an NFT marketplace: listings, offers, commission
//! splits and the resolution of external payout computations.
pub mod keyed;
pub mod data;
pub mod fraction;
pub mod market;
pub mod laws;
pub mod auction_data;
pub mod auction;
pub mod costs;
