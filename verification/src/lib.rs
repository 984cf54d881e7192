//! Core logic of a filtering HTTPS-intercepting proxy.
//!
//! The crate gathers the decision logic of the proxy: the filter-engine
//! actor with its request accounting, the per-host certificate cache with
//! single-flight generation, the statistics tables, the resource-manifest
//! readers, the HTML rewriter, and the CONNECT/serve dispatch rules.
//! Network and TLS plumbing stays outside; the functions here take plain
//! values and state what they return.

pub mod blocker;
pub mod blocker_utils;
pub mod cert;
pub mod clock;
pub mod engine;
pub mod exclusions;
pub mod metrics;
pub mod mitm;
pub mod rewriter;
pub mod serve;
pub mod statistics;
pub mod text;

pub use blocker::Blocker;
pub use blocker::BlockingDisabledStore;
pub use cert::Authority;
pub use cert::CertCache;
pub use exclusions::LocalExclusionStore;
pub use metrics::MetricsCollector;
pub use statistics::Statistics;
