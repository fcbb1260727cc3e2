//! Named bounds and well-known paths.

use vstd::prelude::*;

verus! {

/// Maximum IPC JSON payload (bytes).
pub const MAX_IPC_FRAME_BYTES: usize = 1048576;
/// Concurrent Unix-socket clients.
pub const MAX_IPC_CLIENTS: usize = 32;
/// Config inotify debounce (milliseconds).
pub const CONFIG_DEBOUNCE_MS: u64 = 300;
/// Default DHCPDISCOVER wait.
pub const DEFAULT_PROBE_TIMEOUT_SECS: u64 = 5;
/// Default seconds without carrier before a re-select.
pub const DEFAULT_LINK_RETRY_SECS: u64 = 15;
/// Wait for dhclient to assign an address (milliseconds).
pub const DHCP_CLIENT_WAIT_MS: u64 = 5000;
/// Period between gateway-mode DHCPDISCOVER starts (milliseconds).
pub const GATEWAY_FOREIGN_DHCP_INTERVAL_MS: u64 = 15000;
/// UDP recv timeout inside a DHCPDISCOVER wait loop (milliseconds).
pub const DHCP_PROBE_RECV_TIMEOUT_MS: u64 = 250;
/// SIGTERM grace before SIGKILL for a pidfile-owned process (milliseconds).
pub const PROCESS_TERM_WAIT_MS: u64 = 400;
/// How often the daemon refreshes live CIDR / process flags (milliseconds).
pub const STATUS_REFRESH_MS: u64 = 3000;
/// Fixed carrier-loss grace of [`crate::daemon::should_reapply_on_carrier_loss`]
/// (milliseconds); the daemon's own carrier watch waits `linkRetrySecs`.
pub const CARRIER_LOST_GRACE_MS: u64 = 10000;
/// Minimum spacing between two carrier-loss re-applies (milliseconds).
pub const CARRIER_REAPPLY_BACKOFF_MS: u64 = 30000;
/// Longest accepted DNS record name (bytes).
pub const MAX_DNS_NAME_LEN: usize = 253;
/// Most DNS records accepted in the config.
pub const MAX_DNS_RECORDS: usize = 64;

pub const DEFAULT_STATIC_HOST: u8 = 252;
pub const DEFAULT_RANGE_START: u8 = 50;
pub const DEFAULT_RANGE_END: u8 = 200;
pub const REQUIRED_PREFIX: u8 = 24;

pub const IP_BIN: &'static str = "/sbin/ip";
pub const DHCLIENT_BIN: &'static str = "/sbin/dhclient";
pub const PING_BIN: &'static str = "/bin/ping";
pub const DNSMASQ_BIN: &'static str = "/usr/sbin/dnsmasq";
pub const ETHTOOL_BIN: &'static str = "/usr/sbin/ethtool";

/// Linux `ARPHRD_ETHER`.
pub const ARPHRD_ETHER: u16 = 1;

} // verus!
