//! IPC request/response values (the JSON is `type`-tagged, camelCase).

use vstd::prelude::*;

use crate::apply::{Mode, Status};
use crate::version::Info;

verus! {

#[derive(Clone, Copy, Debug, PartialEq, Eq, Structural)]
pub enum Request {
    Status,
    Info,
    Reconfigure,
}

/// Daemon-owned liveness (IPC `status` + `micronet check`).
#[derive(Clone, Debug, PartialEq, Eq)]
pub struct Health {
    pub healthy: bool,
    pub reason: Option<String>,
}

impl Health {
    pub fn ok() -> (r: Self)
        ensures
            r.healthy,
            r.reason is None,
    {
        Health { healthy: true, reason: None }
    }
}

#[derive(Clone, Debug, PartialEq, Eq)]
pub enum Response {
    Status {
        mode: Mode,
        iface: String,
        cidr: Option<String>,
        foreign_dhcp: bool,
        gateway_reachable: bool,
        dnsmasq_running: bool,
        healthy: bool,
        unhealthy_reason: Option<String>,
    },
    Info {
        version: String,
        build_commit: String,
        tag_commit: String,
        build_time: String,
        hostname: String,
    },
    /// The request was accepted (JSON `{"type":"ok"}`).
    Okay,
    Error { message: String },
}

impl Response {
    /// The `status` reply: every field of the snapshot plus the health verdict.
    pub fn from_status(s: &Status, health: &Health) -> (r: Self)
        ensures
            r == (Response::Status {
                mode: s.mode,
                iface: s.iface,
                cidr: s.cidr,
                foreign_dhcp: s.foreign_dhcp,
                gateway_reachable: s.gateway_reachable,
                dnsmasq_running: s.dnsmasq_running,
                healthy: health.healthy,
                unhealthy_reason: health.reason,
            }),
    {
        Response::Status {
            mode: s.mode,
            iface: s.iface.clone(),
            cidr: s.cidr.clone(),
            foreign_dhcp: s.foreign_dhcp,
            gateway_reachable: s.gateway_reachable,
            dnsmasq_running: s.dnsmasq_running,
            healthy: health.healthy,
            unhealthy_reason: health.reason.clone(),
        }
    }

    /// The `info` reply for this build on the host named `hostname`.
    pub fn from_info(info: &Info, hostname: String) -> (r: Self)
        ensures
            r == (Response::Info {
                version: info.version,
                build_commit: info.build_commit,
                tag_commit: info.tag_commit,
                build_time: info.build_time,
                hostname: hostname,
            }),
    {
        Response::Info {
            version: info.version.clone(),
            build_commit: info.build_commit.clone(),
            tag_commit: info.tag_commit.clone(),
            build_time: info.build_time.clone(),
            hostname,
        }
    }
}

} // verus!
