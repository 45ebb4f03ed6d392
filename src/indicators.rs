//! Online indicators: each consumes one value per call and returns the
//! updated statistic, keeping only a bounded window of past inputs.

pub mod change;
pub mod corr;
pub mod cov;
pub mod cum;
pub mod norm;
pub mod sma;
pub mod stdev;

pub use change::Change;
pub use corr::Corr;
pub use cov::Cov;
pub use cum::{Cum, Total};
pub use norm::Norm;
pub use sma::Sma;
pub use sma::Sma as Ma;
pub use stdev::Stdev;
