//! Accounting core of a two-asset constant-product market maker: pool
//! creation, share issuance and redemption, fee-bearing swaps, and the
//! allow-list of transfer-hook programs that guards hook-bearing mints.

pub mod error;
pub mod key;
pub mod laws;
pub mod liquidity;
pub mod math;
pub mod pool;
pub mod swap;
pub mod whitelist;
