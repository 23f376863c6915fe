//! Strategy: bars, indicators, regime, strike selection and the agents.
//!
//! This is a producer of signals only: it never talks to a broker and never
//! places an order.

pub mod accuracy;
pub mod agents;
pub mod candles;
pub mod config;
pub mod indicators;
pub mod laws;
pub mod market;
pub mod regime;
pub mod strikes;

pub use candles::{Candle, CandleSeries};
pub use config::StrategyConfig;
pub use regime::{MarketRegime, RegimeReading};
pub use strikes::{StrikeCandidate, StrikeSelection};
