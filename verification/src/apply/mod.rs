//! Mode selection and apply: client / gateway / static.

use vstd::prelude::*;
use vstd::string::StringExecFns;
use vstd::string::StrSliceExecFns;

use crate::config::{cidr_string, config_fault, Config};
use crate::constants::DHCP_CLIENT_WAIT_MS;
use crate::error::Error;
use crate::net::addr::{cidr_addr, cidr_ipv4, ipv4_text, Ipv4Addr};
use crate::net::{is_auto, other_ethernet, NetOps};

pub mod plan;

verus! {

/// Operating mode.
#[derive(Clone, Copy, Debug, PartialEq, Eq, Structural)]
pub enum Mode {
    Client,
    Gateway,
    Static,
}

/// The JSON name of a mode.
pub open spec fn mode_text(m: Mode) -> Seq<char> {
    match m {
        Mode::Client => "client"@,
        Mode::Gateway => "gateway"@,
        Mode::Static => "static"@,
    }
}

impl Mode {
    pub fn as_str(self) -> (r: &'static str)
        ensures
            r@ == mode_text(self),
    {
        match self {
            Mode::Client => "client",
            Mode::Gateway => "gateway",
            Mode::Static => "static",
        }
    }
}

/// Snapshot returned by apply / IPC `status`.
#[derive(Clone, Debug, PartialEq, Eq)]
pub struct Status {
    pub mode: Mode,
    pub iface: String,
    /// Real IPv4 prefix (`a.b.c.d/24`) or `None` if unassigned.
    pub cidr: Option<String>,
    pub foreign_dhcp: bool,
    pub gateway_reachable: bool,
    pub dnsmasq_running: bool,
}

impl Status {
    pub fn empty() -> (r: Self)
        ensures
            r.mode == Mode::Gateway,
            r.iface@.len() == 0,
            r.cidr is None,
            !r.foreign_dhcp,
            !r.gateway_reachable,
            !r.dnsmasq_running,
    {
        Status {
            mode: Mode::Gateway,
            iface: String::new(),
            cidr: None,
            foreign_dhcp: false,
            gateway_reachable: false,
            dnsmasq_running: false,
        }
    }

    /// Cached snapshot has an IPv4 CIDR recorded (not a live check).
    pub fn is_up(&self) -> (r: bool)
        ensures
            r == (self.cidr is Some && self.iface@.len() > 0),
    {
        self.cidr.is_some() && self.iface.as_str().unicode_len() > 0
    }
}

/// Mode from probe results: a foreign DHCP server wins, then a live gateway.
pub open spec fn decide_spec(foreign_dhcp: bool, gateway_reachable: bool) -> Mode {
    if foreign_dhcp {
        Mode::Client
    } else if gateway_reachable {
        Mode::Static
    } else {
        Mode::Gateway
    }
}

/// A foreign DHCP server wins whatever the ping says; without one, a live
/// gateway means static, and silence means we become the gateway. So the
/// mode is client exactly when a foreign server answered.
pub proof fn lemma_foreign_dhcp_wins(foreign_dhcp: bool, gateway_reachable: bool)
    ensures
        decide_spec(true, gateway_reachable) == Mode::Client,
        decide_spec(false, true) == Mode::Static,
        decide_spec(false, false) == Mode::Gateway,
        (decide_spec(foreign_dhcp, gateway_reachable) == Mode::Client) == foreign_dhcp,
{
}

/// Decide mode from probe results.
pub fn decide(foreign_dhcp: bool, gateway_reachable: bool) -> (r: Mode)
    ensures
        r == decide_spec(foreign_dhcp, gateway_reachable),
        foreign_dhcp ==> r == Mode::Client,
        !foreign_dhcp && gateway_reachable ==> r == Mode::Static,
        !foreign_dhcp && !gateway_reachable ==> r == Mode::Gateway,
{
    if foreign_dhcp {
        Mode::Client
    } else if gateway_reachable {
        Mode::Static
    } else {
        Mode::Gateway
    }
}

/// How apply should probe.
#[derive(Clone, Copy, Debug, PartialEq, Eq, Structural)]
pub enum ProbePolicy {
    /// Stop our dnsmasq, then DHCPDISCOVER + ping (start, IPC reconfigure).
    Full,
    /// Skip DHCPDISCOVER (we may be serving). Ping `gateway.ip` unless it is ours.
    SkipDhcpWhileGateway,
    /// Foreign DHCP already proved; stop our dnsmasq and start dhclient.
    BecomeClient,
}

/// DHCP server + probe, injectable in tests.
pub trait GatewayCtl {
    fn dhcp_running(&self) -> bool;

    fn dhcp_stop(&self) -> Result<(), Error>;

    fn dhcp_reload_or_restart(&self, cfg: &Config, iface: &str) -> Result<(), Error>;

    fn probe_foreign_dhcp(
        &self,
        iface: &str,
        timeout_secs: u64,
        ignore_servers: &[Ipv4Addr],
    ) -> Result<bool, Error>;
}

/// The shape every status of a mode has: which flags are set and, for the
/// modes that own an address, which CIDR is recorded.
pub open spec fn status_shape(cfg: Config, s: Status) -> bool {
    match s.mode {
        Mode::Client => s.foreign_dhcp && !s.gateway_reachable,
        Mode::Static => {
            &&& !s.foreign_dhcp
            &&& s.gateway_reachable
            &&& s.cidr matches Some(c) && c@ == cfg.static_cidr_spec()
        },
        Mode::Gateway => {
            &&& !s.foreign_dhcp
            &&& !s.gateway_reachable
            &&& s.cidr matches Some(c) && c@ == cfg.gateway_cidr_spec()
        },
    }
}

/// The mode apply ends in: client when the policy says so or a foreign DHCP
/// server answered a probe that ran; else static when `gateway.ip` answered a
/// ping (which is not sent when the iface already holds `gateway.ip`), else
/// gateway.
pub open spec fn chosen_mode(
    policy: ProbePolicy,
    foreign_dhcp: bool,
    gateway_is_ours: bool,
    ping_ok: bool,
) -> Mode {
    if policy == ProbePolicy::BecomeClient || (policy == ProbePolicy::Full && foreign_dhcp) {
        Mode::Client
    } else {
        decide_spec(false, !gateway_is_ours && ping_ok)
    }
}

/// What apply sets up on the chosen iface.
#[derive(Clone, Debug, PartialEq, Eq)]
pub enum Setup {
    /// Stop our dnsmasq, flush, start dhclient and read the lease back.
    Client,
    /// Stop our dnsmasq, keep `cidr` (`<static host>/24`), default route via `gateway.ip`.
    Static { cidr: String },
    /// Flush, add `cidr` (`gateway.ip/24`), no default route, (re)start our dnsmasq.
    Gateway { cidr: String },
}

/// The mode a setup ends in.
pub open spec fn setup_mode(s: Setup) -> Mode {
    match s {
        Setup::Client => Mode::Client,
        Setup::Static { .. } => Mode::Static,
        Setup::Gateway { .. } => Mode::Gateway,
    }
}

/// The setup of a mode: static and gateway carry the address they add.
pub open spec fn setup_for(cfg: Config, s: Setup, mode: Mode) -> bool {
    match s {
        Setup::Client => mode == Mode::Client,
        Setup::Static { cidr } => mode == Mode::Static && cidr@ == cfg.static_cidr_spec(),
        Setup::Gateway { cidr } => mode == Mode::Gateway && cidr@ == cfg.gateway_cidr_spec(),
    }
}

/// The setup for the probe and ping answers (see [`chosen_mode`]).
pub fn choose_setup(
    cfg: &Config,
    policy: ProbePolicy,
    foreign_dhcp: bool,
    gateway_is_ours: bool,
    ping_ok: bool,
) -> (r: Setup)
    requires
        cfg.gateway.subnet.prefix_len == 24,
    ensures
        setup_for(*cfg, r, chosen_mode(policy, foreign_dhcp, gateway_is_ours, ping_ok)),
{
    if policy == ProbePolicy::BecomeClient || (policy == ProbePolicy::Full && foreign_dhcp) {
        return Setup::Client;
    }
    match decide(false, !gateway_is_ours && ping_ok) {
        Mode::Client => Setup::Client,
        Mode::Static => Setup::Static { cidr: cfg.static_cidr() },
        Mode::Gateway => Setup::Gateway { cidr: cfg.gateway_cidr() },
    }
}

/// An optional text by its view.
pub open spec fn cidr_view(o: Option<String>) -> Option<Seq<char>> {
    match o {
        Some(c) => Some(c@),
        None => None,
    }
}

/// The status reported after `setup` on `iface` (see [`plan::reported`]).
pub fn setup_status(iface: &str, setup: &Setup, lease: Option<String>, dnsmasq_running: bool) -> (r:
    Status)
    ensures
        plan::reported(r, iface@, setup@, cidr_view(lease), dnsmasq_running),
{
    let (mode, cidr) = match setup {
        Setup::Client => (Mode::Client, lease),
        Setup::Static { cidr } => (Mode::Static, Some(cidr.clone())),
        Setup::Gateway { cidr } => (Mode::Gateway, Some(cidr.clone())),
    };
    Status {
        mode,
        iface: String::from_str(iface),
        cidr,
        foreign_dhcp: mode == Mode::Client,
        gateway_reachable: mode == Mode::Static,
        dnsmasq_running,
    }
}

/// The status apply reports for some probe and ping answers, lease and
/// dnsmasq state.
pub open spec fn apply_outcome(
    s: Status,
    cfg: Config,
    policy: ProbePolicy,
    foreign_dhcp: bool,
    gateway_is_ours: bool,
    ping_ok: bool,
    lease: Option<Seq<char>>,
    running: bool,
) -> bool {
    let mode = chosen_mode(policy, foreign_dhcp, gateway_is_ours, ping_ok);
    &&& s.mode == mode
    &&& s.foreign_dhcp == (mode == Mode::Client)
    &&& s.gateway_reachable == (mode == Mode::Static)
    &&& s.dnsmasq_running == running
    &&& cidr_view(s.cidr) == match mode {
        Mode::Client => lease,
        Mode::Static => Some(cfg.static_cidr_spec()),
        Mode::Gateway => Some(cfg.gateway_cidr_spec()),
    }
}

/// Carry out one request through the live system and report its answer.
pub fn perform<N: NetOps, G: GatewayCtl>(cfg: &Config, op: &plan::Op, net: &N, gw: &G) -> (r: plan::Answer) {
    match op {
        plan::Op::DhcpRunning => plan::Answer::Flag(gw.dhcp_running()),
        plan::Op::DhcpStop => plan::Answer::Unit(gw.dhcp_stop()),
        plan::Op::ProbeForeignDhcp(i, t, g) => plan::Answer::Found(
            gw.probe_foreign_dhcp(i.as_str(), *t, g.as_slice()),
        ),
        plan::Op::DhcpReloadOrRestart(i) => plan::Answer::Unit(gw.dhcp_reload_or_restart(cfg, i.as_str())),
        _ => perform_net(op, net),
    }
}

/// Carry out one request of the network (a DHCP-server request is not one:
/// it gets no answer).
pub fn perform_net<N: NetOps>(op: &plan::Op, net: &N) -> (r: plan::Answer) {
    match op {
        plan::Op::ResolveIface(c) => plan::Answer::Name(net.resolve_iface(opt_str(c))),
        plan::Op::ResolveIfacePassive(c) => plan::Answer::Name(net.resolve_iface_passive(opt_str(c))),
        plan::Op::ListEthernet => plan::Answer::Names(net.list_ethernet()),
        plan::Op::FlushAddr(i) => plan::Answer::Unit(net.flush_addr(i.as_str())),
        plan::Op::SetDown(i) => plan::Answer::Unit(net.set_down(i.as_str())),
        plan::Op::BringUp(i) => plan::Answer::Unit(net.bring_up(i.as_str())),
        plan::Op::StopDhclient(i) => plan::Answer::Unit(net.stop_dhclient(i.as_str())),
        plan::Op::AddAddr(i, c) => plan::Answer::Unit(net.add_addr(i.as_str(), c.as_str())),
        plan::Op::HasAddr(i, a) => plan::Answer::Flag(net.iface_has_addr(i.as_str(), *a)),
        plan::Op::Ping(a) => plan::Answer::Flag(net.ping(*a)),
        plan::Op::StartDhclient(i) => plan::Answer::Unit(net.start_dhclient(i.as_str())),
        plan::Op::WaitIpv4(i, t) => plan::Answer::Flag(net.wait_ipv4(i.as_str(), *t)),
        plan::Op::Ipv4Cidr(i) => plan::Answer::Cidr(net.iface_ipv4_cidr(i.as_str())),
        plan::Op::ReplaceDefaultVia(a, i) => plan::Answer::Unit(net.replace_default_via(*a, i.as_str())),
        plan::Op::DelDefault => plan::Answer::Unit(net.del_default()),
        plan::Op::CarrierUp(i) => plan::Answer::Flag(net.carrier_up(i.as_str())),
        plan::Op::HasIpv4(i) => plan::Answer::Flag(net.iface_has_ipv4(i.as_str())),
        plan::Op::DhclientRunning(i) => plan::Answer::Flag(net.dhclient_running(i.as_str())),
        _ => plan::Answer::Ready,
    }
}

fn opt_str(c: &Option<String>) -> (r: Option<&str>)
    ensures
        match r {
            Some(t) => *c matches Some(u) && t@ == u@,
            None => *c is None,
        },
{
    match c {
        Some(s) => Some(s.as_str()),
        None => None,
    }
}

/// Apply with injected net + DHCP control: the steps of [`plan::apply_step`]
/// (their requests and the arguments they carry are stated there), each
/// request carried out through `net` / `gw`.
///
/// An invalid config is refused before any request. A result is a status
/// of the shape of its mode, the one that some probe and ping answers lead
/// to; `BecomeClient` always ends as client, `SkipDhcpWhileGateway` never does.
pub fn apply_with<N: NetOps, G: GatewayCtl>(
    cfg: &Config,
    policy: ProbePolicy,
    net: &N,
    gw: &G,
) -> (r: Result<Status, Error>)
    ensures
        config_fault(*cfg) matches Some(m) ==> (r matches Err(Error::Config(e)) && e@ == m),
        r matches Ok(s) ==> {
            &&& config_fault(*cfg) is None
            &&& status_shape(*cfg, s)
            &&& s.mode == decide_spec(s.foreign_dhcp, s.gateway_reachable)
            &&& policy == ProbePolicy::BecomeClient ==> s.mode == Mode::Client
            &&& policy == ProbePolicy::SkipDhcpWhileGateway ==> s.mode != Mode::Client
            &&& exists|foreign: bool, ours: bool, ping_ok: bool, lease: Option<Seq<char>>, running: bool|
                #[trigger] apply_outcome(s, *cfg, policy, foreign, ours, ping_ok, lease, running)
        },
{
    let mut st = plan::ApplyState::Start;
    let mut a = plan::Answer::Ready;
    loop
        invariant
            plan::apply_wf(*cfg, policy, st@),
        decreases plan::apply_phase(st@), plan::apply_left(st@),
    {
        match plan::apply_step(cfg, policy, st, a) {
            plan::Next::Done(r) => {
                return r;
            },
            plan::Next::Call(next, op) => {
                a = perform(cfg, &op, net, gw);
                st = next;
            },
        }
    }
}

/// Stop managed dnsmasq/dhclient and flush the resolved iface: the steps of
/// [`plan::teardown_step`] (requests and their arguments are stated there),
/// each request carried out through `net` / `gw`.
pub fn teardown_with<N: NetOps, G: GatewayCtl>(cfg: &Config, net: &N, gw: &G) -> (r: Result<
    Status,
    Error,
>)
    ensures
        config_fault(*cfg) matches Some(m) ==> (r matches Err(Error::Config(e)) && e@ == m),
        r matches Ok(s) ==> {
            &&& config_fault(*cfg) is None
            &&& s.mode == Mode::Gateway
            &&& s.cidr is None
            &&& !s.foreign_dhcp
            &&& !s.gateway_reachable
        },
{
    let mut st = plan::TeardownState::Start;
    let mut a = plan::Answer::Ready;
    loop
        invariant
            st@ !is Start ==> config_fault(*cfg) is None,
        decreases plan::teardown_phase(st@),
    {
        match plan::teardown_step(cfg, st, a) {
            plan::Next::Done(r) => {
                return r;
            },
            plan::Next::Call(next, op) => {
                a = perform(cfg, &op, net, gw);
                st = next;
            },
        }
    }
}

/// Liveness verdict from what was observed: an empty iface fails; no carrier
/// passes (avoids unplug restart loops); with carrier a live IPv4 is needed
/// plus the process that belongs to the mode.
pub open spec fn health_verdict(
    mode: Mode,
    iface_empty: bool,
    carrier: bool,
    has_ipv4: bool,
    dnsmasq_running: bool,
    dhclient_running: bool,
) -> bool {
    if iface_empty {
        false
    } else if !carrier {
        true
    } else if !has_ipv4 {
        false
    } else {
        match mode {
            Mode::Gateway => dnsmasq_running,
            Mode::Client => dhclient_running,
            Mode::Static => true,
        }
    }
}

/// Liveness rules: an empty iface is never healthy; without carrier the
/// check passes (no restart loop on unplug); with carrier and no IPv4 it
/// fails; with both, static is healthy, gateway needs our dnsmasq and client
/// needs its dhclient.
pub proof fn lemma_health_rules(mode: Mode, carrier: bool, has_ipv4: bool, dnsmasq: bool, dhclient: bool)
    ensures
        !health_verdict(mode, true, carrier, has_ipv4, dnsmasq, dhclient),
        health_verdict(mode, false, false, has_ipv4, dnsmasq, dhclient),
        !health_verdict(mode, false, true, false, dnsmasq, dhclient),
        health_verdict(Mode::Static, false, true, true, dnsmasq, dhclient),
        health_verdict(Mode::Gateway, false, true, true, dnsmasq, dhclient) == dnsmasq,
        health_verdict(Mode::Client, false, true, true, dnsmasq, dhclient) == dhclient,
{
}

/// The liveness verdict for what was observed (see [`health_verdict`]).
pub fn health_from(
    mode: Mode,
    iface_empty: bool,
    carrier: bool,
    has_ipv4: bool,
    dnsmasq_running: bool,
    dhclient_running: bool,
) -> (r: bool)
    ensures
        r == health_verdict(mode, iface_empty, carrier, has_ipv4, dnsmasq_running, dhclient_running),
{
    if iface_empty {
        false
    } else if !carrier {
        true
    } else if !has_ipv4 {
        false
    } else {
        match mode {
            Mode::Gateway => dnsmasq_running,
            Mode::Client => dhclient_running,
            Mode::Static => true,
        }
    }
}

/// Live liveness: the steps of [`plan::health_step`] (what is observed, in
/// which order, and the verdict for each answer are stated there), each
/// observation made through `net` / `gw`. Empty iface fails; no carrier
/// succeeds (avoid unplug restart loops); with carrier a live IPv4 is needed
/// plus the process that belongs to the mode.
pub fn live_health<N: NetOps, G: GatewayCtl>(mode: Mode, iface: &str, net: &N, gw: &G) -> (r: bool)
    ensures
        iface@.len() == 0 ==> !r,
{
    let cfg = Config::default();
    let mut st = plan::HealthState::Start;
    let mut a = plan::Answer::Ready;
    loop
        invariant
            iface@.len() == 0 ==> st is Start,
        decreases plan::health_phase(st),
    {
        match plan::health_step(mode, iface, st, a) {
            plan::Next::Done(r) => {
                return r;
            },
            plan::Next::Call(next, op) => {
                a = perform(&cfg, &op, net, gw);
                st = next;
            },
        }
    }
}

/// The status apply reports for given probe results, without touching the system.
pub open spec fn decided_status_ok(
    s: Status,
    iface: Seq<char>,
    foreign_dhcp: bool,
    gateway_reachable: bool,
    cfg: Config,
) -> bool {
    let mode = decide_spec(foreign_dhcp, gateway_reachable);
    &&& s.mode == mode
    &&& s.iface@ == iface
    &&& s.foreign_dhcp == foreign_dhcp
    &&& s.gateway_reachable == gateway_reachable
    &&& match mode {
        Mode::Client => s.cidr is None && !s.dnsmasq_running,
        Mode::Static => s.cidr matches Some(c) && c@ == cfg.static_cidr_spec()
            && !s.dnsmasq_running,
        Mode::Gateway => s.cidr matches Some(c) && c@ == cfg.gateway_cidr_spec()
            && s.dnsmasq_running,
    }
}

/// Decide-only apply (no live `ip`/`dnsmasq`).
pub fn decide_status(iface: &str, foreign_dhcp: bool, gateway_reachable: bool, cfg: &Config) -> (r:
    Status)
    requires
        cfg.gateway.subnet.prefix_len == 24,
    ensures
        decided_status_ok(r, iface@, foreign_dhcp, gateway_reachable, *cfg),
{
    let mode = decide(foreign_dhcp, gateway_reachable);
    let (cidr, dns) = match mode {
        Mode::Client => (None, false),
        Mode::Static => (Some(cfg.static_cidr()), false),
        Mode::Gateway => (Some(cfg.gateway_cidr()), true),
    };
    Status {
        mode,
        iface: String::from_str(iface),
        cidr,
        foreign_dhcp,
        gateway_reachable,
        dnsmasq_running: dns,
    }
}

/// The ignore list of a periodic gateway probe: `gateway.ip`, then the local
/// address when it is a different one.
pub open spec fn ignore_list(gw: Ipv4Addr, local: Option<Ipv4Addr>) -> Seq<Ipv4Addr> {
    match local {
        Some(ip) => if ip == gw {
            seq![gw]
        } else {
            seq![gw, ip]
        },
        None => seq![gw],
    }
}

/// Ignore list for a periodic gateway probe: configured gateway.ip plus local inet.
pub fn periodic_ignore_servers(cfg: &Config, local_cidr: Option<&str>) -> (r: Vec<Ipv4Addr>)
    ensures
        r@ == ignore_list(
            cfg.gateway.ip,
            match local_cidr {
                Some(c) => cidr_addr(c@),
                None => None,
            },
        ),
{
    let mut ignore: Vec<Ipv4Addr> = Vec::new();
    ignore.push(cfg.gateway.ip);
    match local_cidr {
        Some(c) => match cidr_ipv4(c) {
            Some(ip) => {
                if !ip.same(&cfg.gateway.ip) {
                    ignore.push(ip);
                }
            },
            None => {},
        },
        None => {},
    }
    assert(ignore@ =~= ignore_list(
        cfg.gateway.ip,
        match local_cidr {
            Some(c) => cidr_addr(c@),
            None => None,
        },
    ));
    ignore
}

} // verus!
