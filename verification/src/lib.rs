//! A time-locked NFT collection and the token ledger that goes with it,
//! with their state kept in stable memory.
pub mod codec;
pub mod stable;
pub mod account;
pub mod text;
pub mod tables;
pub mod ledger;
pub mod ledger_laws;
pub mod ledger_restore;
pub mod hexnum;
pub mod identity;
pub mod registry;
pub mod registry_auth;
pub mod registry_tokens;
pub mod registry_media;
pub mod access;
pub mod registry_laws;
pub mod registry_restore;
pub mod pool_ledger;
pub mod pool_dummy;
pub mod mock;
pub mod pool_laws;
pub mod pool_restore;
pub mod classic;
pub mod classic_laws;
pub mod classic_restore;
