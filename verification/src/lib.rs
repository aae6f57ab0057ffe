//! Pricing and execution core of a small multi-asset exchange: per-asset
//! limit order books matched under price-time priority, and liquidity pools
//! priced by a constant-product formula.

pub mod corelib;
