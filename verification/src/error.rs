//! Error type of the library.

use vstd::prelude::*;

verus! {

/// What can go wrong; I/O and foreign errors are carried as text.
#[derive(Clone, Debug, PartialEq, Eq)]
pub enum Error {
    /// An I/O failure (message).
    Io(String),
    /// An I/O failure on a path: path, message.
    IoPath { path: String, message: String },
    /// Malformed JSON (message).
    Json(String),
    /// Invalid operator configuration.
    Config(String),
    /// The configured interface is not a physical Ethernet device.
    NotEthernet(String),
    /// No physical Ethernet device exists.
    NoEthernet,
    /// The DHCPDISCOVER probe could not run.
    DhcpProbe(String),
    /// `dhclient` is not installed at this path.
    DhclientMissing(String),
    /// `dnsmasq` is not installed at this path.
    DnsmasqMissing(String),
    /// Control-socket failure.
    Ipc(String),
    /// A system call failed (errno).
    Nix(i32),
    /// Anything else.
    Other(String),
}

} // verus!
