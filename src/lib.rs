//! Pairs-trading signal core: a fixed asset universe, online fixed-point
//! indicators, per-asset and pairwise signal units, and the candle stream
//! buffers that feed them time-aligned data.

pub mod coin;
pub mod feed;
pub mod indicators;
pub mod num;
pub mod signal;
