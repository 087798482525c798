//! Configuration-file values: optional overrides for the scan and discovery
//! commands.  Loading the file and deserializing it belong to the front end;
//! the shapes and their empty defaults live here.

use vstd::prelude::*;

verus! {

/// Overrides for the scan command.
#[derive(Debug, Clone)]
pub struct ScanConfig {
    pub ports: Option<String>,
    pub top: Option<usize>,
    pub timeout_ms: Option<u64>,
    pub concurrency: Option<usize>,
    pub host_concurrency: Option<usize>,
    pub qps: Option<u32>,
    pub retries: Option<u32>,
    pub retry_delay_ms: Option<u64>,
    pub format: Option<String>,
}

impl Default for ScanConfig {
    /// No overrides.
    fn default() -> (r: ScanConfig)
        ensures
            r.ports is None,
            r.top is None,
            r.timeout_ms is None,
            r.concurrency is None,
            r.host_concurrency is None,
            r.qps is None,
            r.retries is None,
            r.retry_delay_ms is None,
            r.format is None,
    {
        ScanConfig {
            ports: None,
            top: None,
            timeout_ms: None,
            concurrency: None,
            host_concurrency: None,
            qps: None,
            retries: None,
            retry_delay_ms: None,
            format: None,
        }
    }
}

/// Overrides for the discovery command.
#[derive(Debug, Clone)]
pub struct DiscoverConfig {
    pub ports: Option<String>,
    pub timeout_ms: Option<u64>,
    pub concurrency: Option<usize>,
    pub qps: Option<u32>,
    pub format: Option<String>,
}

impl Default for DiscoverConfig {
    /// No overrides.
    fn default() -> (r: DiscoverConfig)
        ensures
            r.ports is None,
            r.timeout_ms is None,
            r.concurrency is None,
            r.qps is None,
            r.format is None,
    {
        DiscoverConfig { ports: None, timeout_ms: None, concurrency: None, qps: None, format: None }
    }
}

/// The whole configuration file.
#[derive(Debug, Clone)]
pub struct Config {
    pub scan: Option<ScanConfig>,
    pub discover: Option<DiscoverConfig>,
}

impl Default for Config {
    /// An empty configuration.
    fn default() -> (r: Config)
        ensures
            r.scan is None,
            r.discover is None,
    {
        Config { scan: None, discover: None }
    }
}

} // verus!
