//! Our dnsmasq (pidfile-owned): when to restart rather than reload.

use vstd::prelude::*;
use vstd::string::StringExecFns;

use crate::config::{dns_name, normalize_dns_name, Config, DnsRecord};
use crate::constants::DNSMASQ_BIN;
use crate::error::Error;
use crate::net::addr::{ipv4_text, Ipv4Addr};
use crate::pidfile::{self, cmdline_names};

verus! {

/// dnsmasq must be restarted (not just sent SIGHUP) when its main
/// configuration changed: SIGHUP does not re-read it.
pub fn restart_required(old: &str, new: &str) -> (r: bool)
    ensures
        r == (old@ != new@),
{
    !crate::text::str_eq(old, new)
}

/// Our dnsmasq runs: its pidfile names a live dnsmasq.
pub fn is_running(pid: Option<i32>, cmdline: &[u8]) -> (r: bool)
    ensures
        r == (pid is Some && cmdline_names(cmdline@, DNSMASQ_BIN@)),
{
    pidfile::is_alive(pid, cmdline, DNSMASQ_BIN)
}

/// Stop our dnsmasq: the pid to signal, if it is alive.
pub fn stop(pid: Option<i32>, alive: bool) -> (r: Option<i32>)
    ensures
        r == (if alive { pid } else { None::<i32> }),
{
    pidfile::stop(pid, alive)
}

/// What `reload_or_restart` does first.
#[derive(Clone, Copy, Debug, PartialEq, Eq, Structural)]
pub enum ReloadStep {
    /// Not running: start it.
    Start,
    /// The configuration changed in a way SIGHUP does not pick up: stop, then start.
    Restart,
    /// Send SIGHUP.
    Sighup,
}

/// Start when not running, restart when the configuration changed, else SIGHUP.
pub fn reload_or_restart(running: bool, conf_changed: bool) -> (r: ReloadStep)
    ensures
        r == if !running {
            ReloadStep::Start
        } else if conf_changed {
            ReloadStep::Restart
        } else {
            ReloadStep::Sighup
        },
{
    if !running {
        ReloadStep::Start
    } else if conf_changed {
        ReloadStep::Restart
    } else {
        ReloadStep::Sighup
    }
}

/// After a SIGHUP attempt: a failed signal means restart, a vanished
/// process means start, else nothing more.
pub fn after_sighup(sighup_ok: bool, still_running: bool) -> (r: Option<ReloadStep>)
    ensures
        r == if !sighup_ok {
            Some(ReloadStep::Restart)
        } else if !still_running {
            Some(ReloadStep::Start)
        } else {
            None::<ReloadStep>
        },
{
    if !sighup_ok {
        Some(ReloadStep::Restart)
    } else if !still_running {
        Some(ReloadStep::Start)
    } else {
        None
    }
}

/// Starting our dnsmasq: a missing binary is an error, a running one is
/// left alone (`None`), else the arguments to run it with
/// (`-C <conf> -x <pidfile>`).
pub fn start_args(exists: bool, running: bool, conf: &str, pidfile: &str) -> (r: Result<
    Option<Vec<String>>,
    Error,
>)
    ensures
        !exists ==> (r matches Err(Error::DnsmasqMissing(p)) && p@ == DNSMASQ_BIN@),
        exists && running ==> (r matches Ok(None)),
        exists && !running ==> (r matches Ok(Some(args)) && args@.len() == 4 && args@[0]@ == "-C"@
            && args@[1]@ == conf@ && args@[2]@ == "-x"@ && args@[3]@ == pidfile@),
{
    if !exists {
        return Err(Error::DnsmasqMissing(String::from_str(DNSMASQ_BIN)));
    }
    if running {
        return Ok(None);
    }
    let mut args: Vec<String> = Vec::new();
    args.push(String::from_str("-C"));
    args.push(String::from_str(conf));
    args.push(String::from_str("-x"));
    args.push(String::from_str(pidfile));
    Ok(Some(args))
}

/// The A record of one configured name: `host-record=<name>,<ip>`, nothing
/// for a name that does not normalize.
pub open spec fn host_record_line(rec: DnsRecord, gateway_ip: Ipv4Addr) -> Seq<char> {
    let ip = match rec.addr {
        Some(a) => a,
        None => gateway_ip,
    };
    match dns_name(rec.name@) {
        Ok(n) => "host-record="@ + n + ","@ + ipv4_text(ip) + "\n"@,
        Err(_) => Seq::empty(),
    }
}

/// The `host-record=` lines of the records, in order.
pub open spec fn host_record_lines(recs: Seq<DnsRecord>, gateway_ip: Ipv4Addr) -> Seq<char>
    decreases recs.len(),
{
    if recs.len() == 0 {
        Seq::empty()
    } else {
        host_record_lines(recs.drop_last(), gateway_ip) + host_record_line(recs.last(), gateway_ip)
    }
}

/// Our dnsmasq configuration: bound to the iface and `gateway.ip`, the pool
/// `rangeStart..rangeEnd` of the gateway subnet with the sticky lease time,
/// BigFred as router and DNS server, and (when `dns` is enabled) one
/// `host-record=` per configured name.
pub open spec fn conf_text(cfg: Config, iface: Seq<char>, leasefile: Seq<char>, pidfile: Seq<char>) -> Seq<char> {
    let gw = ipv4_text(cfg.gateway.ip);
    "interface="@ + iface + "\n"@
        + "bind-interfaces\n"@
        + "listen-address="@ + gw + "\n"@
        + "dhcp-range="@ + ipv4_text(cfg.host_spec(cfg.dhcp.range_start)) + ","@
        + ipv4_text(cfg.host_spec(cfg.dhcp.range_end)) + ","@ + cfg.dhcp.sticky@ + "\n"@
        + "dhcp-option=option:router,"@ + gw + "\n"@
        + "dhcp-option=option:dns-server,"@ + gw + "\n"@
        + "dhcp-leasefile="@ + leasefile + "\n"@
        + "pid-file="@ + pidfile + "\n"@
        + if cfg.dns.enabled {
            host_record_lines(cfg.dns.records@, cfg.gateway.ip)
        } else {
            Seq::empty()
        }
}

/// Render our dnsmasq configuration (see [`conf_text`]).
pub fn render_conf(cfg: &Config, iface: &str, leasefile: &str, pidfile: &str) -> (r: String)
    requires
        cfg.gateway.subnet.prefix_len == 24,
    ensures
        r@ == conf_text(*cfg, iface@, leasefile@, pidfile@),
{
    let gw = cfg.gateway.ip.to_string();
    let start = cfg.range_start_addr().to_string();
    let end = cfg.range_end_addr().to_string();
    let mut s = String::from_str("interface=");
    s.append(iface);
    s.append("\n");
    s.append("bind-interfaces\n");
    s.append("listen-address=");
    s.append(gw.as_str());
    s.append("\n");
    s.append("dhcp-range=");
    s.append(start.as_str());
    s.append(",");
    s.append(end.as_str());
    s.append(",");
    s.append(cfg.dhcp.sticky.as_str());
    s.append("\n");
    s.append("dhcp-option=option:router,");
    s.append(gw.as_str());
    s.append("\n");
    s.append("dhcp-option=option:dns-server,");
    s.append(gw.as_str());
    s.append("\n");
    s.append("dhcp-leasefile=");
    s.append(leasefile);
    s.append("\n");
    s.append("pid-file=");
    s.append(pidfile);
    s.append("\n");
    let ghost head = s@;
    if cfg.dns.enabled {
        let mut i: usize = 0;
        assert(cfg.dns.records@.subrange(0, 0) =~= Seq::<DnsRecord>::empty());
        while i < cfg.dns.records.len()
            invariant
                i <= cfg.dns.records@.len(),
                s@ == head + host_record_lines(cfg.dns.records@.subrange(0, i as int), cfg.gateway.ip),
            decreases cfg.dns.records@.len() - i,
        {
            let rec = &cfg.dns.records[i];
            let ghost pre = cfg.dns.records@.subrange(0, i as int);
            assert(cfg.dns.records@.subrange(0, i + 1).drop_last() =~= pre);
            assert(cfg.dns.records@.subrange(0, i + 1).last() == *rec);
            let ghost before = s@;
            match normalize_dns_name(rec.name.as_str()) {
                Ok(name) => {
                    let ip = cfg.dns_record_ip(rec).to_string();
                    s.append("host-record=");
                    s.append(name.as_str());
                    s.append(",");
                    s.append(ip.as_str());
                    s.append("\n");
                    assert(s@ =~= before + host_record_line(*rec, cfg.gateway.ip));
                },
                Err(_) => {
                    assert(host_record_line(*rec, cfg.gateway.ip) =~= Seq::<char>::empty());
                    assert(s@ =~= before + host_record_line(*rec, cfg.gateway.ip));
                },
            }
            i = i + 1;
        }
        assert(cfg.dns.records@.subrange(0, cfg.dns.records@.len() as int) =~= cfg.dns.records@);
    }
    assert(s@ =~= conf_text(*cfg, iface@, leasefile@, pidfile@));
    s
}

} // verus!
