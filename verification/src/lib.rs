//! Fair issuance of uniquely numbered items from a fixed pool, with metered
//! payment, and an append-only registry of collections.
//!
//! - [`pool`]: the allocation pool and the selection of a free identifier by
//!   its rank; [`pool_laws`]: what holds over any sequence of selections.
//! - [`entropy`]: one seed, one generator, one drawn rank.
//! - [`escrow`]: what a request costs and what goes back to the payer.
//! - [`record`] and [`token`]: the descriptive record of an item, and the
//!   ledger of the items issued.
//! - [`nft`]: the issuer, which draws, selects, records and settles in one
//!   request; [`nft_laws`]: what holds over any sequence of requests.
//! - [`ino`]: the registry of collections.
//!
//! Every request either succeeds as a whole or fails with an [`error::Error`]
//! and leaves the state as it was. Storage is metered and transfers are made
//! by the caller: a request takes the bytes that it consumes as a part of its
//! payment, and hands back the transfer that is due.

pub mod entropy;
pub mod error;
pub mod escrow;
pub mod ino;
pub mod nft;
pub mod nft_laws;
pub mod pool;
pub mod pool_laws;
pub mod record;
pub mod token;
