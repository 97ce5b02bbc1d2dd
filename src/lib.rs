//! Telemetry bridge between a proxy's control socket and a metrics scraper:
//! the exposition renderer for metrics snapshots, and the decision logic of
//! the resilient session that fetches them.

pub mod config;
pub mod metrics;
pub mod percent;
pub mod prometheus;
pub mod session;
pub mod text;
