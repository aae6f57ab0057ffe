//! The exchange core, leaves first: identifiers, orders, order books,
//! liquidity pools and the engine that owns them.

pub mod amm;
pub mod engine;
pub mod order;
pub mod orderbook;
pub mod token;
