use std::collections::HashMap;
use std::sync::Mutex;

use micronet::apply::{
    apply_with, choose_setup, decide, decide_status, health_from, live_health,
    periodic_ignore_servers, setup_status, teardown_with, GatewayCtl, Mode, ProbePolicy, Setup,
    Status,
};
use micronet::config::Config;
use micronet::daemon::{apply_once, check_liveness, legacy_iface_up, legacy_verdict, teardown, CheckStyle, Liveness};
use micronet::ipc::protocol::{Health, Response};
use micronet::net::addr::Ipv4Addr;
use micronet::net::NetOps;
use micronet::Error;

struct FakeNet {
    ping_ok: bool,
    addrs: Mutex<Vec<Ipv4Addr>>,
    dhclient: Mutex<bool>,
    default_via: Mutex<Option<Ipv4Addr>>,
    carrier: bool,
    ifaces: Vec<String>,
    carriers: HashMap<String, bool>,
    downed: Mutex<Vec<String>>,
}

impl FakeNet {
    fn new(ping_ok: bool) -> Self {
        Self {
            ping_ok,
            addrs: Mutex::new(Vec::new()),
            dhclient: Mutex::new(false),
            default_via: Mutex::new(None),
            carrier: true,
            ifaces: Vec::new(),
            carriers: HashMap::new(),
            downed: Mutex::new(Vec::new()),
        }
    }

    fn with_ifaces(ping_ok: bool, ifaces: &[(&str, bool)]) -> Self {
        let mut carriers = HashMap::new();
        for (n, c) in ifaces {
            carriers.insert((*n).to_string(), *c);
        }
        Self {
            ping_ok,
            addrs: Mutex::new(Vec::new()),
            dhclient: Mutex::new(false),
            default_via: Mutex::new(None),
            carrier: true,
            ifaces: ifaces.iter().map(|(n, _)| (*n).to_string()).collect(),
            carriers,
            downed: Mutex::new(Vec::new()),
        }
    }
}

impl NetOps for FakeNet {
    fn list_ethernet(&self) -> Result<Vec<String>, Error> {
        if self.ifaces.is_empty() {
            Ok(vec!["eth0".into()])
        } else {
            Ok(self.ifaces.clone())
        }
    }
    fn is_physical_ethernet(&self, name: &str) -> bool {
        self.ifaces.is_empty() && name == "eth0" || self.ifaces.iter().any(|n| n == name)
    }
    fn resolve_iface(&self, configured: Option<&str>) -> Result<String, Error> {
        match configured {
            None | Some("auto") => {
                if self.ifaces.is_empty() {
                    return Ok("eth0".into());
                }
                let pick = self
                    .ifaces
                    .iter()
                    .find(|n| self.carriers.get(*n).copied().unwrap_or(false))
                    .cloned()
                    .or_else(|| self.ifaces.first().cloned());
                pick.ok_or(Error::NoEthernet)
            }
            Some(name) => {
                if !self.is_physical_ethernet(name) {
                    return Err(Error::NotEthernet(name.into()));
                }
                Ok(name.into())
            }
        }
    }
    fn bring_up(&self, _iface: &str) -> Result<(), Error> {
        Ok(())
    }
    fn flush_addr(&self, _iface: &str) -> Result<(), Error> {
        self.addrs.lock().unwrap().clear();
        Ok(())
    }
    fn add_addr(&self, _iface: &str, cidr: &str) -> Result<(), Error> {
        let ip = cidr
            .split('/')
            .next()
            .and_then(Ipv4Addr::parse)
            .unwrap_or(Ipv4Addr::new(0, 0, 0, 0));
        self.addrs.lock().unwrap().push(ip);
        Ok(())
    }
    fn iface_has_ipv4(&self, iface: &str) -> bool {
        self.iface_ipv4_cidr(iface).is_some()
    }
    fn iface_has_addr(&self, _iface: &str, ip: Ipv4Addr) -> bool {
        self.addrs.lock().unwrap().contains(&ip)
    }
    fn iface_ipv4_cidr(&self, _iface: &str) -> Option<String> {
        if *self.dhclient.lock().unwrap() {
            return Some("192.168.0.50/24".into());
        }
        self.addrs.lock().unwrap().first().map(|ip| format!("{}/24", ip.to_string()))
    }
    fn carrier_up(&self, _iface: &str) -> bool {
        self.carrier
    }
    fn ping(&self, _host: Ipv4Addr) -> bool {
        self.ping_ok
    }
    fn stop_dhclient(&self, _iface: &str) -> Result<(), Error> {
        *self.dhclient.lock().unwrap() = false;
        Ok(())
    }
    fn start_dhclient(&self, _iface: &str) -> Result<(), Error> {
        *self.dhclient.lock().unwrap() = true;
        Ok(())
    }
    fn dhclient_running(&self, _iface: &str) -> bool {
        *self.dhclient.lock().unwrap()
    }
    fn wait_ipv4(&self, iface: &str, _timeout_ms: u64) -> bool {
        self.iface_has_ipv4(iface)
    }
    fn replace_default_via(&self, gw: Ipv4Addr, _iface: &str) -> Result<(), Error> {
        *self.default_via.lock().unwrap() = Some(gw);
        Ok(())
    }
    fn del_default(&self) -> Result<(), Error> {
        *self.default_via.lock().unwrap() = None;
        Ok(())
    }
    fn set_down(&self, iface: &str) -> Result<(), Error> {
        self.downed.lock().unwrap().push(iface.to_string());
        Ok(())
    }
}

struct FakeGw {
    offer: bool,
    fail_probe: bool,
    running: Mutex<bool>,
    started: Mutex<bool>,
}

impl FakeGw {
    fn new(offer: bool) -> Self {
        Self { offer, fail_probe: false, running: Mutex::new(false), started: Mutex::new(false) }
    }
}

impl GatewayCtl for FakeGw {
    fn dhcp_running(&self) -> bool {
        *self.running.lock().unwrap()
    }
    fn dhcp_stop(&self) -> Result<(), Error> {
        *self.running.lock().unwrap() = false;
        Ok(())
    }
    fn dhcp_reload_or_restart(&self, _cfg: &Config, _iface: &str) -> Result<(), Error> {
        *self.running.lock().unwrap() = true;
        *self.started.lock().unwrap() = true;
        Ok(())
    }
    fn probe_foreign_dhcp(&self, _iface: &str, _timeout_secs: u64, _ignore: &[Ipv4Addr]) -> Result<bool, Error> {
        if self.fail_probe {
            return Err(Error::DhcpProbe("bind failed".into()));
        }
        Ok(self.offer)
    }
}

#[test]
fn three_outcomes() {
    let cfg = Config::default();
    assert_eq!(decide(true, false), Mode::Client);
    assert_eq!(decide(false, true), Mode::Static);
    assert_eq!(decide(false, false), Mode::Gateway);
    let s = decide_status("eth0", false, false, &cfg);
    assert_eq!(s.mode, Mode::Gateway);
    assert_eq!(s.cidr.as_deref(), Some("192.168.0.1/24"));
    let s = decide_status("eth0", false, true, &cfg);
    assert_eq!(s.mode, Mode::Static);
    assert_eq!(s.cidr.as_deref(), Some("192.168.0.252/24"));
    let s = decide_status("eth0", true, false, &cfg);
    assert_eq!(s.mode, Mode::Client);
}

#[test]
fn apply_foreign_dhcp_is_client_with_real_cidr() {
    let cfg = Config::default();
    let net = FakeNet::new(false);
    let gw = FakeGw::new(true);
    let s = apply_with(&cfg, ProbePolicy::Full, &net, &gw).unwrap();
    assert_eq!(s.mode, Mode::Client);
    assert!(s.foreign_dhcp);
    assert!(!*gw.started.lock().unwrap());
    assert!(*net.dhclient.lock().unwrap());
    assert_eq!(s.cidr.as_deref(), Some("192.168.0.50/24"));
    assert!(!s.cidr.as_deref().unwrap().contains("dhcp"));
}

#[test]
fn apply_ping_ok_is_static_252() {
    let cfg = Config::default();
    let net = FakeNet::new(true);
    let gw = FakeGw::new(false);
    let s = apply_with(&cfg, ProbePolicy::Full, &net, &gw).unwrap();
    assert_eq!(s.mode, Mode::Static);
    assert_eq!(s.cidr.as_deref(), Some("192.168.0.252/24"));
    assert_eq!(*net.default_via.lock().unwrap(), Some(cfg.gateway.ip));
    assert!(!*gw.started.lock().unwrap());
}

#[test]
fn apply_no_offer_no_ping_is_gateway() {
    let cfg = Config::default();
    let net = FakeNet::new(false);
    let gw = FakeGw::new(false);
    let s = apply_with(&cfg, ProbePolicy::Full, &net, &gw).unwrap();
    assert_eq!(s.mode, Mode::Gateway);
    assert_eq!(s.cidr.as_deref(), Some("192.168.0.1/24"));
    assert!(*gw.started.lock().unwrap());
    assert!(net.default_via.lock().unwrap().is_none());
}

#[test]
fn probe_err_does_not_start_dnsmasq() {
    let cfg = Config::default();
    let net = FakeNet::new(false);
    let mut gw = FakeGw::new(false);
    gw.fail_probe = true;
    let err = apply_with(&cfg, ProbePolicy::Full, &net, &gw).unwrap_err();
    assert!(matches!(err, Error::DhcpProbe(_)));
    assert!(!*gw.started.lock().unwrap());
    assert!(!*gw.running.lock().unwrap());
}

#[test]
fn become_client_stops_dnsmasq_without_probe() {
    let cfg = Config::default();
    let net = FakeNet::new(false);
    let gw = FakeGw::new(false);
    *gw.running.lock().unwrap() = true;
    let s = apply_with(&cfg, ProbePolicy::BecomeClient, &net, &gw).unwrap();
    assert_eq!(s.mode, Mode::Client);
    assert!(!*gw.running.lock().unwrap());
    assert!(!*gw.started.lock().unwrap());
    assert!(*net.dhclient.lock().unwrap());
    assert_eq!(s.cidr.as_deref(), Some("192.168.0.50/24"));
}

#[test]
fn teardown_stops_managed_state() {
    let cfg = Config::default();
    let net = FakeNet::new(false);
    let gw = FakeGw::new(false);
    *gw.running.lock().unwrap() = true;
    *net.dhclient.lock().unwrap() = true;
    net.addrs.lock().unwrap().push(Ipv4Addr::new(192, 168, 0, 1));
    let s = teardown_with(&cfg, &net, &gw).unwrap();
    assert!(s.cidr.is_none());
    assert!(!*gw.running.lock().unwrap());
    assert!(!*net.dhclient.lock().unwrap());
    assert!(net.addrs.lock().unwrap().is_empty());
}

#[test]
fn apply_auto_picks_iface_with_carrier() {
    let cfg = Config::default();
    let net = FakeNet::with_ifaces(false, &[("eth0", false), ("eth1", true)]);
    let gw = FakeGw::new(false);
    let s = apply_with(&cfg, ProbePolicy::Full, &net, &gw).unwrap();
    assert_eq!(s.iface, "eth1");
    assert_eq!(s.mode, Mode::Gateway);
    assert_eq!(s.cidr.as_deref(), Some("192.168.0.1/24"));
}

#[test]
fn teardown_auto_passive_resolves_same_iface() {
    let cfg = Config::default();
    let net = FakeNet::with_ifaces(false, &[("eth0", false), ("eth1", true)]);
    let gw = FakeGw::new(false);
    let _ = apply_with(&cfg, ProbePolicy::Full, &net, &gw).unwrap();
    let s = teardown_with(&cfg, &net, &gw).unwrap();
    assert_eq!(s.iface, "eth1");
}

#[test]
fn live_health_matrix() {
    let net = FakeNet::new(false);
    let gw = FakeGw::new(false);
    assert!(!live_health(Mode::Gateway, "", &net, &gw));

    *gw.running.lock().unwrap() = true;
    net.addrs.lock().unwrap().push(Ipv4Addr::new(192, 168, 0, 1));
    assert!(live_health(Mode::Gateway, "eth0", &net, &gw));
    *gw.running.lock().unwrap() = false;
    assert!(!live_health(Mode::Gateway, "eth0", &net, &gw));

    let mut down = FakeNet::new(false);
    down.carrier = false;
    assert!(live_health(Mode::Gateway, "eth0", &down, &gw));

    *net.dhclient.lock().unwrap() = true;
    assert!(live_health(Mode::Client, "eth0", &net, &gw));
    *net.dhclient.lock().unwrap() = false;
    net.addrs.lock().unwrap().clear();
    net.addrs.lock().unwrap().push(Ipv4Addr::new(192, 168, 0, 252));
    assert!(!live_health(Mode::Client, "eth0", &net, &gw));
    assert!(live_health(Mode::Static, "eth0", &net, &gw));
}

#[test]
fn periodic_ignore_includes_gateway_and_local() {
    let cfg = Config::default();
    let v = periodic_ignore_servers(&cfg, Some("192.168.0.1/24"));
    assert_eq!(v, vec![cfg.gateway.ip]);
    let v = periodic_ignore_servers(&cfg, Some("192.168.0.50/24"));
    assert_eq!(v, vec![cfg.gateway.ip, Ipv4Addr::new(192, 168, 0, 50)]);
}

#[test]
fn invalid_config_is_refused_before_any_operation() {
    let cfg = Config { link_retry_secs: 0, ..Config::default() };
    let net = FakeNet::new(false);
    let gw = FakeGw::new(false);
    *gw.running.lock().unwrap() = true;
    assert!(matches!(apply_with(&cfg, ProbePolicy::Full, &net, &gw), Err(Error::Config(_))));
    assert!(*gw.running.lock().unwrap());
    assert!(matches!(teardown_with(&cfg, &net, &gw), Err(Error::Config(_))));
    let cfg = Config { interface: Some("wlan0".into()), ..Config::default() };
    assert!(matches!(apply_with(&cfg, ProbePolicy::Full, &net, &gw), Err(Error::NotEthernet(_))));
}

#[test]
fn skip_dhcp_while_gateway_never_probes() {
    let cfg = Config::default();
    let net = FakeNet::new(false);
    let mut gw = FakeGw::new(true);
    gw.fail_probe = true;
    *gw.running.lock().unwrap() = true;
    let s = apply_with(&cfg, ProbePolicy::SkipDhcpWhileGateway, &net, &gw).unwrap();
    assert_eq!(s.mode, Mode::Gateway);
    assert!(!s.foreign_dhcp);
}

#[test]
fn one_shot_apply_and_teardown() {
    let cfg = Config::default();
    let net = FakeNet::new(true);
    let gw = FakeGw::new(false);
    let s = apply_once(&cfg, &net, &gw).unwrap();
    assert_eq!(s.mode, Mode::Static);
    let t = teardown(&cfg, &net, &gw).unwrap();
    assert_eq!(t.mode, Mode::Gateway);
    assert!(t.cidr.is_none());
}

#[test]
fn liveness_from_replies() {
    let net = FakeNet::new(false);
    let gw = FakeGw::new(false);
    *gw.running.lock().unwrap() = true;
    net.addrs.lock().unwrap().push(Ipv4Addr::new(192, 168, 0, 1));
    let mut st = Status::empty();
    st.iface = "eth0".to_string();
    st.cidr = Some("192.168.0.1/24".to_string());
    let reply = Response::from_status(&st, &Health::ok());
    assert_eq!(check_liveness(Ok(reply), CheckStyle::Daemon).unwrap(), Liveness::Verdict(true));
    assert_eq!(check_liveness(Ok(Response::Okay), CheckStyle::Daemon).unwrap(), Liveness::Verdict(false));
    let down = Err(Error::Io("connection refused".to_string()));
    assert_eq!(check_liveness(down, CheckStyle::Daemon).unwrap(), Liveness::Verdict(false));
    let down = Err(Error::IoPath { path: "/x".to_string(), message: "no such file".to_string() });
    assert_eq!(check_liveness(down, CheckStyle::Legacy).unwrap(), Liveness::CheckIface);
    let bad = Err(Error::Json("garbage".to_string()));
    assert_eq!(check_liveness(bad, CheckStyle::Legacy).unwrap_err(), Error::Json("garbage".to_string()));
    assert!(legacy_iface_up(&Config::default(), &net).unwrap());
    let sick = Response::from_status(&st, &Health { healthy: false, reason: None });
    assert_eq!(check_liveness(Ok(sick), CheckStyle::Daemon).unwrap(), Liveness::Verdict(false));
    st.iface = String::new();
    let said_ok = Response::from_status(&st, &Health::ok());
    assert_eq!(check_liveness(Ok(said_ok), CheckStyle::Legacy).unwrap(), Liveness::Verdict(true));
    assert!(legacy_verdict(true, true));
    assert!(!legacy_verdict(true, false));
    assert!(!legacy_verdict(false, true));
}

#[test]
fn health_verdicts() {
    assert!(!health_from(Mode::Static, true, true, true, true, true));
    assert!(health_from(Mode::Gateway, false, false, false, false, false));
    assert!(!health_from(Mode::Static, false, true, false, true, true));
    assert!(health_from(Mode::Gateway, false, true, true, true, false));
    assert!(!health_from(Mode::Gateway, false, true, true, false, true));
    assert!(health_from(Mode::Client, false, true, true, false, true));
    assert!(!health_from(Mode::Client, false, true, true, true, false));
    assert!(health_from(Mode::Static, false, true, true, false, false));
}

#[test]
fn apply_steps_for_answers() {
    let cfg = Config::default();
    assert_eq!(choose_setup(&cfg, ProbePolicy::Full, true, false, true), Setup::Client);
    assert_eq!(
        choose_setup(&cfg, ProbePolicy::Full, false, false, true),
        Setup::Static { cidr: "192.168.0.252/24".to_string() }
    );
    assert_eq!(
        choose_setup(&cfg, ProbePolicy::Full, false, false, false),
        Setup::Gateway { cidr: "192.168.0.1/24".to_string() }
    );
    assert_eq!(
        choose_setup(&cfg, ProbePolicy::Full, false, true, true),
        Setup::Gateway { cidr: "192.168.0.1/24".to_string() }
    );
    assert_eq!(
        choose_setup(&cfg, ProbePolicy::SkipDhcpWhileGateway, true, false, false),
        Setup::Gateway { cidr: "192.168.0.1/24".to_string() }
    );
    assert_eq!(choose_setup(&cfg, ProbePolicy::BecomeClient, false, false, true), Setup::Client);
    let s = setup_status("eth0", &Setup::Client, Some("192.168.0.50/24".to_string()), false);
    assert_eq!(s.mode, Mode::Client);
    assert!(s.foreign_dhcp && !s.gateway_reachable);
    assert_eq!(s.cidr.as_deref(), Some("192.168.0.50/24"));
    let s = setup_status("eth1", &Setup::Gateway { cidr: "10.0.10.1/24".to_string() }, None, true);
    assert_eq!(s.mode, Mode::Gateway);
    assert_eq!(s.iface, "eth1");
    assert_eq!(s.cidr.as_deref(), Some("10.0.10.1/24"));
    assert!(s.dnsmasq_running && !s.foreign_dhcp && !s.gateway_reachable);
}

#[test]
fn auto_pick_sets_other_ethernet_down() {
    let cfg = Config::default();
    let net = FakeNet::with_ifaces(false, &[("eth0", false), ("eth1", true), ("eth2", false)]);
    let gw = FakeGw::new(false);
    let s = apply_with(&cfg, ProbePolicy::Full, &net, &gw).unwrap();
    assert_eq!(s.iface, "eth1");
    assert_eq!(*net.downed.lock().unwrap(), vec!["eth0".to_string(), "eth2".to_string()]);
    let pinned = Config { interface: Some("eth1".into()), ..Config::default() };
    let net = FakeNet::with_ifaces(false, &[("eth0", false), ("eth1", true)]);
    let _ = apply_with(&pinned, ProbePolicy::Full, &net, &gw).unwrap();
    assert!(net.downed.lock().unwrap().is_empty());
}
