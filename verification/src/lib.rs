//! An admission-control layer for request pipelines: pattern-matched
//! rate-limiting rules with a fixed time window and a bounded permit budget.

mod clock;
pub mod config;
pub mod gate;
pub mod laws;
pub mod model;
pub mod pattern;

pub use config::ConfigError;
pub use config::LimitConfig;
pub use gate::Limit;
pub use gate::LimitError;
pub use gate::LimitInstance;
pub use gate::LimitLayer;
pub use gate::Service;
