//! Node configuration sections, their defaults, and how a TOML section overrides them: each
//! value given in the TOML replaces the configured one, each missing value leaves it.
use crate::primitives::Duration;
use vstd::prelude::*;

verus! {

/// `value` if present, else `current`.
pub open spec fn overridden<T>(current: T, value: Option<T>) -> T {
    match value {
        Some(v) => v,
        None => current,
    }
}

/// `config` with the values that `toml` gives.
pub open spec fn tcp_merged(config: TcpConfig, toml: TcpToml) -> TcpConfig {
    TcpConfig {
        max_inbound_connections: overridden(config.max_inbound_connections, toml.max_inbound_connections),
        max_outbound_connections: overridden(config.max_outbound_connections, toml.max_outbound_connections),
        max_attempts: overridden(config.max_attempts, toml.max_attempts),
        max_attempts_per_ip: overridden(config.max_attempts_per_ip, toml.max_attempts_per_ip),
        connect_timeout: match toml.connect_timeout {
            Some(secs) => Duration { millis: (secs * 1000) as u128 },
            None => config.connect_timeout,
        },
    }
}

/// Limits and timeouts of TCP connections.
#[derive(PartialEq, Eq, Structural, Clone, Copy, Debug)]
pub struct TcpConfig {
    pub max_inbound_connections: usize,
    pub max_outbound_connections: usize,
    pub max_attempts: usize,
    pub max_attempts_per_ip: usize,
    pub connect_timeout: Duration,
}

impl TcpConfig {
    /// 128 connections, attempts and attempts per IP; 5 s to connect.
    pub fn for_dev_network() -> (r: TcpConfig)
        ensures
            r.max_inbound_connections == 128,
            r.max_outbound_connections == 128,
            r.max_attempts == 128,
            r.max_attempts_per_ip == 128,
            r.connect_timeout.millis == 5000,
    {
        TcpConfig {
            max_inbound_connections: 128,
            max_outbound_connections: 128,
            max_attempts: 128,
            max_attempts_per_ip: 128,
            connect_timeout: Duration::from_secs(5),
        }
    }

    /// 2048 inbound and outbound connections, 60 attempts, 1 per IP; 60 s to connect.
    pub fn default_config() -> (r: TcpConfig)
        ensures
            r.max_inbound_connections == 2048,
            r.max_outbound_connections == 2048,
            r.max_attempts == 60,
            r.max_attempts_per_ip == 1,
            r.connect_timeout.millis == 60000,
    {
        TcpConfig {
            max_inbound_connections: 2048,
            max_outbound_connections: 2048,
            max_attempts: 60,
            max_attempts_per_ip: 1,
            connect_timeout: Duration::from_secs(60),
        }
    }

    /// Takes over the values the TOML section gives; the connect timeout is in seconds there.
    /// The handshake and I/O timeouts of the section are not used.
    pub fn merge_toml(&mut self, toml: &TcpToml)
        ensures
            *final(self) == tcp_merged(*old(self), *toml),
    {
        if let Some(i) = toml.max_inbound_connections {
            self.max_inbound_connections = i;
        }
        if let Some(i) = toml.max_outbound_connections {
            self.max_outbound_connections = i;
        }
        if let Some(i) = toml.max_attempts {
            self.max_attempts = i;
        }
        if let Some(i) = toml.max_attempts_per_ip {
            self.max_attempts_per_ip = i;
        }
        if let Some(i) = toml.connect_timeout {
            self.connect_timeout = Duration::from_secs(i as u64);
        }
    }
}

impl Default for TcpConfig {
    fn default() -> (r: TcpConfig)
        ensures
            r.max_inbound_connections == 2048,
            r.max_outbound_connections == 2048,
            r.max_attempts == 60,
            r.max_attempts_per_ip == 1,
            r.connect_timeout.millis == 60000,
    {
        Self::default_config()
    }
}

/// The `[node.tcp]` TOML section.
#[derive(PartialEq, Eq, Structural, Clone, Copy, Debug)]
pub struct TcpToml {
    pub max_inbound_connections: Option<usize>,
    pub max_outbound_connections: Option<usize>,
    pub max_attempts: Option<usize>,
    pub max_attempts_per_ip: Option<usize>,
    pub connect_timeout: Option<usize>,
    pub handshake_timeout: Option<usize>,
    pub io_timeout: Option<usize>,
}

impl TcpToml {
    /// The section that writes out a configuration's limits (not its timeouts).
    pub fn from_config(value: &TcpConfig) -> (r: TcpToml)
        ensures
            r == tcp_toml_of(*value),
    {
        TcpToml {
            max_inbound_connections: Some(value.max_inbound_connections),
            max_outbound_connections: Some(value.max_outbound_connections),
            max_attempts: Some(value.max_attempts),
            max_attempts_per_ip: Some(value.max_attempts_per_ip),
            connect_timeout: None,
            handshake_timeout: None,
            io_timeout: None,
        }
    }
}

/// The section that writes out a configuration's limits (not its timeouts).
pub open spec fn tcp_toml_of(value: TcpConfig) -> TcpToml {
    TcpToml {
        max_inbound_connections: Some(value.max_inbound_connections),
        max_outbound_connections: Some(value.max_outbound_connections),
        max_attempts: Some(value.max_attempts),
        max_attempts_per_ip: Some(value.max_attempts_per_ip),
        connect_timeout: None,
        handshake_timeout: None,
        io_timeout: None,
    }
}

/// `config` with the values that `toml` gives.
pub open spec fn backlog_scan_merged(config: BacklogScanConfig, toml: BacklogScanToml) -> BacklogScanConfig {
    BacklogScanConfig {
        enabled: overridden(config.enabled, toml.enable),
        batch_size: overridden(config.batch_size, toml.batch_size),
        rate_limit: overridden(config.rate_limit, toml.rate_limit),
    }
}

/// The section that writes out a configuration.
pub open spec fn backlog_scan_toml_of(value: BacklogScanConfig) -> BacklogScanToml {
    BacklogScanToml {
        enable: Some(value.enabled),
        batch_size: Some(value.batch_size),
        rate_limit: Some(value.rate_limit),
    }
}

/// How the backlog scan walks the ledger.
#[derive(PartialEq, Eq, Structural, Clone, Copy, Debug)]
pub struct BacklogScanConfig {
    /// Control if ongoing backlog population is enabled. If not, backlog population can still be triggered by RPC
    pub enabled: bool,
    /// Number of accounts per second to process.
    pub batch_size: usize,
    /// Number of accounts to scan per second
    pub rate_limit: usize,
}

impl BacklogScanConfig {
    /// Enabled, batches of 1000 accounts, 10000 accounts per second.
    pub fn default_config() -> (r: BacklogScanConfig)
        ensures
            r.enabled,
            r.batch_size == 1000,
            r.rate_limit == 10000,
    {
        BacklogScanConfig { enabled: true, batch_size: 1000, rate_limit: 10_000 }
    }

    /// Takes over the values the TOML section gives.
    pub fn merge_toml(&mut self, toml: &BacklogScanToml)
        ensures
            *final(self) == backlog_scan_merged(*old(self), *toml),
    {
        if let Some(enable) = toml.enable {
            self.enabled = enable;
        }
        if let Some(size) = toml.batch_size {
            self.batch_size = size;
        }
        if let Some(freq) = toml.rate_limit {
            self.rate_limit = freq;
        }
    }
}

impl Default for BacklogScanConfig {
    fn default() -> (r: BacklogScanConfig)
        ensures
            r.enabled,
            r.batch_size == 1000,
            r.rate_limit == 10000,
    {
        Self::default_config()
    }
}

/// The `[node.backlog_scan]` TOML section.
#[derive(PartialEq, Eq, Structural, Clone, Copy, Debug)]
pub struct BacklogScanToml {
    pub enable: Option<bool>,
    pub batch_size: Option<usize>,
    pub rate_limit: Option<usize>,
}

impl BacklogScanToml {
    /// The section that writes out a configuration.
    pub fn from_config(value: &BacklogScanConfig) -> (r: BacklogScanToml)
        ensures
            r == backlog_scan_toml_of(*value),
    {
        BacklogScanToml {
            enable: Some(value.enabled),
            batch_size: Some(value.batch_size),
            rate_limit: Some(value.rate_limit),
        }
    }
}

/// When the hinted scheduler starts elections for blocks with enough votes.
#[derive(PartialEq, Eq, Structural, Clone, Copy, Debug)]
pub struct HintedSchedulerConfig {
    pub hinting_threshold_percent: u32,
    pub check_interval: Duration,
    pub block_cooldown: Duration,
    pub vacancy_threshold_percent: u32,
}

impl HintedSchedulerConfig {
    /// Takes over the values the TOML section gives; the intervals are in milliseconds there.
    pub fn merge_toml(&mut self, toml: &HintedSchedulerToml)
        ensures
            final(self).block_cooldown.millis == match toml.block_cooldown {
                Some(ms) => ms as u128,
                None => old(self).block_cooldown.millis,
            },
            final(self).check_interval.millis == match toml.check_interval {
                Some(ms) => ms as u128,
                None => old(self).check_interval.millis,
            },
            final(self).hinting_threshold_percent == overridden(
                old(self).hinting_threshold_percent,
                toml.hinting_threshold,
            ),
            final(self).vacancy_threshold_percent == overridden(
                old(self).vacancy_threshold_percent,
                toml.vacancy_threshold,
            ),
    {
        if let Some(block_cooldown) = toml.block_cooldown {
            self.block_cooldown = Duration::from_millis(block_cooldown);
        }
        if let Some(check_interval) = toml.check_interval {
            self.check_interval = Duration::from_millis(check_interval);
        }
        if let Some(hinting_threshold) = toml.hinting_threshold {
            self.hinting_threshold_percent = hinting_threshold;
        }
        if let Some(vacancy_threshold) = toml.vacancy_threshold {
            self.vacancy_threshold_percent = vacancy_threshold;
        }
    }
}

/// The `[node.hinted_scheduler]` TOML section.
#[derive(PartialEq, Eq, Structural, Clone, Copy, Debug)]
pub struct HintedSchedulerToml {
    pub enable: Option<bool>,
    pub hinting_threshold: Option<u32>,
    pub check_interval: Option<u64>,
    pub block_cooldown: Option<u64>,
    pub vacancy_threshold: Option<u32>,
}

impl HintedSchedulerToml {
    /// The enabled section that writes out a configuration, intervals in milliseconds
    /// (cut to 64 bits).
    pub fn from_config(config: &HintedSchedulerConfig) -> (r: HintedSchedulerToml)
        ensures
            r.enable == Some(true),
            r.hinting_threshold == Some(config.hinting_threshold_percent),
            r.block_cooldown == Some(config.block_cooldown.millis as u64),
            r.check_interval == Some(config.check_interval.millis as u64),
            r.vacancy_threshold == Some(config.vacancy_threshold_percent),
    {
        HintedSchedulerToml {
            enable: Some(true),
            hinting_threshold: Some(config.hinting_threshold_percent),
            block_cooldown: Some(config.block_cooldown.as_millis() as u64),
            check_interval: Some(config.check_interval.as_millis() as u64),
            vacancy_threshold: Some(config.vacancy_threshold_percent),
        }
    }
}

/// When the optimistic scheduler starts elections ahead of the confirmed frontier.
#[derive(PartialEq, Eq, Structural, Clone, Copy, Debug)]
pub struct OptimisticSchedulerConfig {
    pub gap_threshold: u64,
    pub max_size: usize,
}

impl OptimisticSchedulerConfig {
    /// Takes over the values the TOML section gives.
    pub fn merge_toml(&mut self, toml: &OptimisticSchedulerToml)
        ensures
            final(self).gap_threshold == overridden(old(self).gap_threshold, toml.gap_threshold),
            final(self).max_size == overridden(old(self).max_size, toml.max_size),
    {
        if let Some(gap_threshold) = toml.gap_threshold {
            self.gap_threshold = gap_threshold;
        }
        if let Some(max_size) = toml.max_size {
            self.max_size = max_size;
        }
    }
}

/// The `[node.optimistic_scheduler]` TOML section.
#[derive(PartialEq, Eq, Structural, Clone, Copy, Debug)]
pub struct OptimisticSchedulerToml {
    pub enable: Option<bool>,
    pub gap_threshold: Option<u64>,
    pub max_size: Option<usize>,
}

impl OptimisticSchedulerToml {
    /// The enabled section that writes out a configuration.
    pub fn from_config(config: &OptimisticSchedulerConfig) -> (r: OptimisticSchedulerToml)
        ensures
            r.enable == Some(true),
            r.gap_threshold == Some(config.gap_threshold),
            r.max_size == Some(config.max_size),
    {
        OptimisticSchedulerToml {
            enable: Some(true),
            gap_threshold: Some(config.gap_threshold),
            max_size: Some(config.max_size),
        }
    }
}

/// The `[node.monitor]` TOML section.
#[derive(PartialEq, Eq, Structural, Clone, Copy, Debug)]
pub struct MonitorToml {
    pub enable: Option<bool>,
    pub interval: Option<u64>,
}

impl MonitorToml {
    /// The enabled section with this interval, in whole seconds (cut to 64 bits).
    pub fn from_interval(interval: Duration) -> (r: MonitorToml)
        ensures
            r.enable == Some(true),
            r.interval == Some((interval.millis / 1000) as u64),
    {
        MonitorToml { enable: Some(true), interval: Some(interval.as_secs() as u64) }
    }
}

/// Sizes and limits of the set of blocks to cement.
#[derive(PartialEq, Eq, Structural, Clone, Copy, Debug)]
pub struct ConfirmingSetConfig {
    pub batch_size: usize,
    /// Maximum number of dependent blocks to be stored in memory during processing
    pub max_blocks: usize,
    pub max_queued_notifications: usize,
    /// Maximum number of failed blocks to wait for requeuing
    pub max_deferred: usize,
    /// Max age of deferred blocks before they are dropped
    pub deferred_age_cutoff: Duration,
}

impl ConfirmingSetConfig {
    /// Batches of 256, 16384 blocks in memory, 8 queued notifications, 16384 deferred
    /// blocks for up to 15 minutes.
    pub fn default_config() -> (r: ConfirmingSetConfig)
        ensures
            r.batch_size == 256,
            r.max_blocks == 16384,
            r.max_queued_notifications == 8,
            r.max_deferred == 16384,
            r.deferred_age_cutoff.millis == 900000,
    {
        ConfirmingSetConfig {
            batch_size: 256,
            max_blocks: 128 * 128,
            max_queued_notifications: 8,
            max_deferred: 16 * 1024,
            deferred_age_cutoff: Duration::from_secs(15 * 60),
        }
    }
}

impl Default for ConfirmingSetConfig {
    fn default() -> (r: ConfirmingSetConfig)
        ensures
            r.batch_size == 256,
            r.max_blocks == 16384,
            r.max_queued_notifications == 8,
            r.max_deferred == 16384,
            r.deferred_age_cutoff.millis == 900000,
    {
        Self::default_config()
    }
}

/// How full the set of blocks to cement is.
#[derive(PartialEq, Eq, Structural, Clone, Copy, Debug)]
pub struct ConfirmingSetInfo {
    pub size: usize,
    pub max_size: usize,
}

impl Default for ConfirmingSetInfo {
    fn default() -> (r: ConfirmingSetInfo)
        ensures
            r.size == 0,
            r.max_size == 0,
    {
        ConfirmingSetInfo { size: 0, max_size: 0 }
    }
}

/// Limits of the account sets that the ascending bootstrap keeps.
#[derive(PartialEq, Eq, Structural, Clone, Copy, Debug)]
pub struct AccountSetsConfig {
    pub consideration_count: usize,
    pub priorities_max: usize,
    pub blocking_max: usize,
    pub cooldown: Duration,
}

impl AccountSetsConfig {
    /// 4 requests, 262144 prioritized and blocked accounts, 3 s cooldown.
    pub fn default_config() -> (r: AccountSetsConfig)
        ensures
            r.consideration_count == 4,
            r.priorities_max == 262144,
            r.blocking_max == 262144,
            r.cooldown.millis == 3000,
    {
        AccountSetsConfig {
            consideration_count: 4,
            priorities_max: 256 * 1024,
            blocking_max: 256 * 1024,
            cooldown: Duration::from_secs(3),
        }
    }
}

impl Default for AccountSetsConfig {
    fn default() -> (r: AccountSetsConfig)
        ensures
            r.consideration_count == 4,
            r.priorities_max == 262144,
            r.blocking_max == 262144,
            r.cooldown.millis == 3000,
    {
        Self::default_config()
    }
}

/// Writing a TCP configuration's limits out and merging them back into it leaves it as it
/// was.
pub proof fn lemma_tcp_toml_roundtrip(config: TcpConfig)
    ensures
        tcp_merged(config, tcp_toml_of(config)) == config,
{
}

/// Writing a backlog scan configuration out and merging it back into any configuration gives
/// the written one.
pub proof fn lemma_backlog_scan_toml_roundtrip(written: BacklogScanConfig, config: BacklogScanConfig)
    ensures
        backlog_scan_merged(config, backlog_scan_toml_of(written)) == written,
{
}

} // verus!
