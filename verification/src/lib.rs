//! A per-instrument position-accounting ledger.
//!
//! Trades (buys and sells) are recorded in a repository; each instrument's
//! running position — signed quantity, average cost, realized profit and
//! loss — is kept consistent with the chronological replay of the recorded
//! trades, so that amendment and cancellation are exact, and the position
//! as of any historical date can be reconstructed.
//!
//! All monetary arithmetic is exact rational arithmetic over 64-bit
//! numerators and denominators; operations whose result would not fit
//! report an arithmetic-range error instead of losing precision.

pub mod dates;
pub mod filter;
pub mod ledger;
pub mod money;
pub mod position;
pub mod replay;
pub mod trade;
