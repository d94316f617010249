//! Configuration schema, defaults and validation.

use vstd::prelude::*;

use crate::name_map::NameMap;
use crate::text::{same_text, trim, trimmed};

verus! {

/// Top-level configuration.
#[derive(Debug, Clone)]
pub struct Config {
    pub gateway: GatewayConfig,
    pub persistence: PersistenceConfig,
    pub costs: CostsConfig,
    pub rps: RpsConfig,
    pub upstreams: Vec<UpstreamConfig>,
}

/// What the gateway itself is told.
#[derive(Debug, Clone)]
pub struct GatewayConfig {
    /// The socket address to listen on, as text.
    pub bind: String,
    /// The key that clients present.
    pub api_key: String,
    /// The URL that requests are forwarded to.
    pub upstream_base: String,
    pub request_timeout_ms: u64,
    /// How many distinct keys to try per request.
    pub max_retries: u32,
    pub max_body_bytes: usize,
    /// Seconds between two keep-alive rounds; zero turns them off.
    pub keepalive_secs: u64,
}

/// Where usage is kept across restarts, and how often it is written.
#[derive(Debug, Clone)]
pub struct PersistenceConfig {
    pub path: String,
    pub interval_secs: u64,
    pub on_snapshot_error: SnapshotErrorPolicy,
}

/// What to assume of usage when the snapshot cannot be read.
#[derive(Debug, Clone, Copy, PartialEq, Eq, Structural)]
pub enum SnapshotErrorPolicy {
    /// Start every key at zero usage (default).
    Zero,
    /// Assume every key is at its cap (fail-closed).
    Cap,
}

/// Per-method credit cost configuration. Defaults are applied in code
/// ([`crate::credits`]); this only overrides or adds entries.
#[derive(Debug, Clone)]
pub struct CostsConfig {
    pub overrides: NameMap<u32>,
    /// Cost charged for non-JSON-RPC REST paths when no path rule matches.
    pub default_rest_cost: u32,
}

/// Per-class requests-per-second limits (Helius free tier, per key).
#[derive(Debug, Clone)]
pub struct RpsConfig {
    pub standard_rpc: u32,
    pub send_transaction: u32,
    pub get_program_accounts: u32,
    pub das: u32,
    pub zk: u32,
}

/// One upstream key.
#[derive(Debug, Clone)]
pub struct UpstreamConfig {
    pub name: String,
    pub api_key: String,
    pub credit_cap: u64,
    pub enabled: bool,
}

impl Default for SnapshotErrorPolicy {
    fn default() -> (policy: Self)
        ensures
            policy == SnapshotErrorPolicy::Zero,
    {
        SnapshotErrorPolicy::Zero
    }
}

impl Default for PersistenceConfig {
    fn default() -> (c: Self)
        ensures
            c.path@ == "state/credits.snapshot.json"@,
            c.interval_secs == 10,
            c.on_snapshot_error == SnapshotErrorPolicy::Zero,
    {
        PersistenceConfig {
            path: default_snapshot_path(),
            interval_secs: default_interval_secs(),
            on_snapshot_error: SnapshotErrorPolicy::default(),
        }
    }
}

impl Default for CostsConfig {
    fn default() -> (c: Self)
        ensures
            c.overrides@ == Map::<Seq<char>, u32>::empty(),
            c.overrides.well_formed(),
            c.default_rest_cost == 100,
    {
        CostsConfig { overrides: NameMap::new(), default_rest_cost: default_rest_cost() }
    }
}

impl Default for RpsConfig {
    fn default() -> (c: Self)
        ensures
            c.standard_rpc == 10,
            c.send_transaction == 1,
            c.get_program_accounts == 5,
            c.das == 2,
            c.zk == 2,
    {
        RpsConfig {
            standard_rpc: rps_standard(),
            send_transaction: rps_send(),
            get_program_accounts: rps_gpa(),
            das: rps_das(),
            zk: rps_zk(),
        }
    }
}

/// Why a configuration is refused.
#[derive(Debug, Clone, PartialEq, Eq)]
pub enum ConfigError {
    EmptyGatewayKey,
    PlaceholderGatewayKey,
    NoUpstreams,
    EmptyUpstreamKey { name: String },
    ZeroCreditCap { name: String },
    ZeroRetries,
}

/// A [`ConfigError`], with names by their characters.
pub enum ConfigFault {
    EmptyGatewayKey,
    PlaceholderGatewayKey,
    NoUpstreams,
    EmptyUpstreamKey(Seq<char>),
    ZeroCreditCap(Seq<char>),
    ZeroRetries,
}

impl View for ConfigError {
    type V = ConfigFault;

    open spec fn view(&self) -> ConfigFault {
        match *self {
            ConfigError::EmptyGatewayKey => ConfigFault::EmptyGatewayKey,
            ConfigError::PlaceholderGatewayKey => ConfigFault::PlaceholderGatewayKey,
            ConfigError::NoUpstreams => ConfigFault::NoUpstreams,
            ConfigError::EmptyUpstreamKey { name } => ConfigFault::EmptyUpstreamKey(name@),
            ConfigError::ZeroCreditCap { name } => ConfigFault::ZeroCreditCap(name@),
            ConfigError::ZeroRetries => ConfigFault::ZeroRetries,
        }
    }
}

impl ConfigFault {
    /// The fault in words.
    pub open spec fn text(self) -> Seq<char> {
        match self {
            ConfigFault::EmptyGatewayKey => "gateway.api_key must not be empty"@,
            ConfigFault::PlaceholderGatewayKey =>
                "gateway.api_key is still the placeholder — set a real value"@,
            ConfigFault::NoUpstreams => "at least one [[upstreams]] entry is required"@,
            ConfigFault::EmptyUpstreamKey(name) => "upstream '"@ + name + "' has an empty api_key"@,
            ConfigFault::ZeroCreditCap(name) => "upstream '"@ + name + "' has credit_cap = 0"@,
            ConfigFault::ZeroRetries => "gateway.max_retries must be >= 1"@,
        }
    }
}

impl ConfigError {
    /// The error in words.
    pub fn message(&self) -> (text: String)
        ensures
            text@ == self@.text(),
    {
        match self {
            ConfigError::EmptyGatewayKey => "gateway.api_key must not be empty".to_owned(),
            ConfigError::PlaceholderGatewayKey =>
                "gateway.api_key is still the placeholder — set a real value".to_owned(),
            ConfigError::NoUpstreams => "at least one [[upstreams]] entry is required".to_owned(),
            ConfigError::EmptyUpstreamKey { name } => "upstream '".to_owned().concat(
                name.as_str(),
            ).concat("' has an empty api_key"),
            ConfigError::ZeroCreditCap { name } => "upstream '".to_owned().concat(
                name.as_str(),
            ).concat("' has credit_cap = 0"),
            ConfigError::ZeroRetries => "gateway.max_retries must be >= 1".to_owned(),
        }
    }
}

/// What is wrong with one upstream entry, if anything.
pub open spec fn upstream_fault(up: UpstreamConfig) -> Option<ConfigFault> {
    if trimmed(up.api_key@).len() == 0 {
        Some(ConfigFault::EmptyUpstreamKey(up.name@))
    } else if up.credit_cap == 0 {
        Some(ConfigFault::ZeroCreditCap(up.name@))
    } else {
        None
    }
}

/// The fault of the first faulty entry.
pub open spec fn first_upstream_fault(ups: Seq<UpstreamConfig>) -> Option<ConfigFault>
    decreases ups.len(),
{
    if ups.len() == 0 {
        None
    } else if upstream_fault(ups[0]) is Some {
        upstream_fault(ups[0])
    } else {
        first_upstream_fault(ups.skip(1))
    }
}

impl Config {
    /// The first thing that is wrong with this configuration, if anything.
    pub open spec fn fault(&self) -> Option<ConfigFault> {
        if trimmed(self.gateway.api_key@).len() == 0 {
            Some(ConfigFault::EmptyGatewayKey)
        } else if self.gateway.api_key@ == "CHANGE_ME_gateway_token"@ {
            Some(ConfigFault::PlaceholderGatewayKey)
        } else if self.upstreams@.len() == 0 {
            Some(ConfigFault::NoUpstreams)
        } else if first_upstream_fault(self.upstreams@) is Some {
            first_upstream_fault(self.upstreams@)
        } else if self.gateway.max_retries == 0 {
            Some(ConfigFault::ZeroRetries)
        } else {
            None
        }
    }

    /// Refuses a configuration that cannot work, with the first reason found.
    pub fn validate(&self) -> (checked: Result<(), ConfigError>)
        ensures
            match checked {
                Ok(_) => self.fault() is None,
                Err(e) => self.fault() == Some(e@),
            },
    {
        if trim(self.gateway.api_key.as_str()).is_empty() {
            return Err(ConfigError::EmptyGatewayKey);
        }
        if same_text(self.gateway.api_key.as_str(), "CHANGE_ME_gateway_token") {
            return Err(ConfigError::PlaceholderGatewayKey);
        }
        if self.upstreams.is_empty() {
            return Err(ConfigError::NoUpstreams);
        }
        let mut i: usize = 0;
        assert(self.upstreams@.skip(0) == self.upstreams@);
        while i < self.upstreams.len()
            invariant
                i <= self.upstreams@.len(),
                trimmed(self.gateway.api_key@).len() != 0,
                self.gateway.api_key@ != "CHANGE_ME_gateway_token"@,
                self.upstreams@.len() != 0,
                first_upstream_fault(self.upstreams@) == first_upstream_fault(
                    self.upstreams@.skip(i as int),
                ),
            decreases self.upstreams@.len() - i,
        {
            let up = &self.upstreams[i];
            assert(self.upstreams@.skip(i as int)[0] == up);
            assert(self.upstreams@.skip(i as int).skip(1) == self.upstreams@.skip(i + 1));
            if trim(up.api_key.as_str()).is_empty() {
                return Err(ConfigError::EmptyUpstreamKey { name: up.name.clone() });
            }
            if up.credit_cap == 0 {
                return Err(ConfigError::ZeroCreditCap { name: up.name.clone() });
            }
            i += 1;
        }
        if self.gateway.max_retries == 0 {
            return Err(ConfigError::ZeroRetries);
        }
        Ok(())
    }
}

pub fn default_upstream_base() -> (base: String)
    ensures
        base@ == "https://mainnet.helius-rpc.com"@,
{
    "https://mainnet.helius-rpc.com".to_owned()
}

pub fn default_request_timeout_ms() -> (ms: u64)
    ensures
        ms == 15_000,
{
    15_000
}

pub fn default_max_retries() -> (n: u32)
    ensures
        n == 6,
{
    6
}

pub fn default_max_body_bytes() -> (n: usize)
    ensures
        n == 5 * 1024 * 1024,
{
    5 * 1024 * 1024
}

pub fn default_snapshot_path() -> (path: String)
    ensures
        path@ == "state/credits.snapshot.json"@,
{
    "state/credits.snapshot.json".to_owned()
}

pub fn default_interval_secs() -> (secs: u64)
    ensures
        secs == 10,
{
    10
}

pub fn default_rest_cost() -> (cost: u32)
    ensures
        cost == 100,
{
    100
}

pub fn default_credit_cap() -> (cap: u64)
    ensures
        cap == 1_000_000,
{
    1_000_000
}

pub fn default_true() -> (yes: bool)
    ensures
        yes,
{
    true
}

pub fn rps_standard() -> (rps: u32)
    ensures
        rps == 10,
{
    10
}

pub fn rps_send() -> (rps: u32)
    ensures
        rps == 1,
{
    1
}

pub fn rps_gpa() -> (rps: u32)
    ensures
        rps == 5,
{
    5
}

pub fn rps_das() -> (rps: u32)
    ensures
        rps == 2,
{
    2
}

pub fn rps_zk() -> (rps: u32)
    ensures
        rps == 2,
{
    2
}

proof fn lemma_no_fault(ups: Seq<UpstreamConfig>, i: int)
    requires
        first_upstream_fault(ups) is None,
        0 <= i < ups.len(),
    ensures
        upstream_fault(ups[i]) is None,
    decreases i,
{
    if i > 0 {
        lemma_no_fault(ups.skip(1), i - 1);
        assert(ups.skip(1)[i - 1] == ups[i]);
    }
}

/// A configuration that passes has what the gateway needs: a key for clients to present, a try
/// for each request, and upstreams, each with a key and with credits.
pub proof fn a_valid_configuration_can_serve(config: Config, i: int)
    requires
        config.fault() is None,
        0 <= i < config.upstreams@.len(),
    ensures
        trimmed(config.gateway.api_key@).len() > 0,
        config.gateway.max_retries >= 1,
        config.upstreams@.len() > 0,
        trimmed(config.upstreams@[i].api_key@).len() > 0,
        config.upstreams@[i].credit_cap >= 1,
{
    lemma_no_fault(config.upstreams@, i);
}

} // verus!
