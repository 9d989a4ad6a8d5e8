//! The gateway's configuration, as read from its YAML file.
use vstd::prelude::*;

verus! {

/// The whole configuration file.
#[derive(Debug)]
pub struct GatewayConfig {
    pub gateway: GatewaySettings,
    pub routes: Vec<RouteConfig>,
}

/// Settings of the gateway itself.
#[derive(Debug)]
pub struct GatewaySettings {
    /// The address to listen on, such as `0.0.0.0:80`.
    pub listen: String,
}

/// One route: requests whose path starts with `prefix` go to `servers`.
#[derive(Debug)]
pub struct RouteConfig {
    pub name: String,
    pub prefix: String,
    /// Whether the prefix is removed from the path before forwarding.
    pub strip_prefix: bool,
    pub load_balance: LoadBalance,
    pub health_check: Option<HealthCheckConfig>,
    pub servers: Vec<ServerConfig>,
}

/// How a route probes its servers.
#[derive(Debug)]
pub struct HealthCheckConfig {
    /// The path requested on each server.
    pub path: String,
    pub interval_ms: u64,
    pub timeout_ms: u64,
}

/// One backend server of a route.
#[derive(Debug)]
pub struct ServerConfig {
    /// Its address, such as `http://127.0.0.1:3344`.
    pub url: String,
    pub weight: u32,
}

/// How a route spreads requests over its servers.
#[derive(Debug, PartialEq, Eq)]
pub enum LoadBalance {
    RoundRobin,
}

impl Default for LoadBalance {
    fn default() -> (r: Self)
        ensures
            r == LoadBalance::RoundRobin,
    {
        LoadBalance::RoundRobin
    }
}

impl HealthCheckConfig {
    /// A copy of these settings.
    pub fn duplicate(&self) -> (r: Self)
        ensures
            r == *self,
    {
        HealthCheckConfig {
            path: self.path.clone(),
            interval_ms: self.interval_ms,
            timeout_ms: self.timeout_ms,
        }
    }
}

/// `strip_prefix` when the file does not give it.
pub fn default_true() -> (b: bool)
    ensures
        b,
{
    true
}

/// A server's `weight` when the file does not give it.
pub fn default_weight() -> (w: u32)
    ensures
        w == 1,
{
    1
}

/// A health check's `interval_ms` when the file does not give it.
pub fn default_hc_interval() -> (ms: u64)
    ensures
        ms == 10_000,
{
    10_000
}

/// A health check's `timeout_ms` when the file does not give it.
pub fn default_hc_timeout() -> (ms: u64)
    ensures
        ms == 2_000,
{
    2_000
}

} // verus!
