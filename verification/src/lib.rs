//! Trading engine: signal generation for an options account.
//!
//! Amounts are exact decimals ([`decimal::Decimal`]), text is built from
//! specified pieces ([`text`]), and the strategy modules sit on top of those.

pub mod date;
pub mod decimal;
pub mod natural;
pub mod server;
pub mod strategy;
pub mod text;

pub use strategy::StrategyConfig;
