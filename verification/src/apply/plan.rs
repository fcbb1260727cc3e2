//! Apply, teardown and the liveness checks as step functions: a step takes
//! what the live system answered to the last request and gives the next
//! request, with every argument it carries, or the result. The requests are
//! carried out through `NetOps` / `GatewayCtl` by the drivers in the parent
//! module.

use vstd::prelude::*;
use vstd::string::StringExecFns;

use crate::apply::{
    apply_outcome, choose_setup, chosen_mode, cidr_view, decide_spec, health_from,
    health_verdict, setup_for, status_shape, Mode, ProbePolicy, Setup, Status,
};
use crate::config::{config_fault, Config};
use crate::constants::DHCP_CLIENT_WAIT_MS;
use crate::error::Error;
use crate::net::addr::Ipv4Addr;
use crate::net::{names_view, other_ethernet, others_of};

verus! {

/// A request made of the live system (one `NetOps` / `GatewayCtl` method and
/// its arguments).
#[derive(Debug)]
pub enum Op {
    ResolveIface(Option<String>),
    ResolveIfacePassive(Option<String>),
    ListEthernet,
    FlushAddr(String),
    SetDown(String),
    BringUp(String),
    StopDhclient(String),
    DhcpRunning,
    DhcpStop,
    ProbeForeignDhcp(String, u64, Vec<Ipv4Addr>),
    AddAddr(String, String),
    HasAddr(String, Ipv4Addr),
    Ping(Ipv4Addr),
    StartDhclient(String),
    WaitIpv4(String, u64),
    Ipv4Cidr(String),
    ReplaceDefaultVia(Ipv4Addr, String),
    DelDefault,
    DhcpReloadOrRestart(String),
    CarrierUp(String),
    HasIpv4(String),
    DhclientRunning(String),
}

/// A request as values.
pub enum OpView {
    ResolveIface(Option<Seq<char>>),
    ResolveIfacePassive(Option<Seq<char>>),
    ListEthernet,
    FlushAddr(Seq<char>),
    SetDown(Seq<char>),
    BringUp(Seq<char>),
    StopDhclient(Seq<char>),
    DhcpRunning,
    DhcpStop,
    ProbeForeignDhcp(Seq<char>, u64, Seq<Ipv4Addr>),
    AddAddr(Seq<char>, Seq<char>),
    HasAddr(Seq<char>, Ipv4Addr),
    Ping(Ipv4Addr),
    StartDhclient(Seq<char>),
    WaitIpv4(Seq<char>, u64),
    Ipv4Cidr(Seq<char>),
    ReplaceDefaultVia(Ipv4Addr, Seq<char>),
    DelDefault,
    DhcpReloadOrRestart(Seq<char>),
    CarrierUp(Seq<char>),
    HasIpv4(Seq<char>),
    DhclientRunning(Seq<char>),
}

impl View for Op {
    type V = OpView;

    open spec fn view(&self) -> OpView {
        match self {
            Op::ResolveIface(c) => OpView::ResolveIface(cidr_view(*c)),
            Op::ResolveIfacePassive(c) => OpView::ResolveIfacePassive(cidr_view(*c)),
            Op::ListEthernet => OpView::ListEthernet,
            Op::FlushAddr(i) => OpView::FlushAddr(i@),
            Op::SetDown(i) => OpView::SetDown(i@),
            Op::BringUp(i) => OpView::BringUp(i@),
            Op::StopDhclient(i) => OpView::StopDhclient(i@),
            Op::DhcpRunning => OpView::DhcpRunning,
            Op::DhcpStop => OpView::DhcpStop,
            Op::ProbeForeignDhcp(i, t, g) => OpView::ProbeForeignDhcp(i@, *t, g@),
            Op::AddAddr(i, c) => OpView::AddAddr(i@, c@),
            Op::HasAddr(i, a) => OpView::HasAddr(i@, *a),
            Op::Ping(a) => OpView::Ping(*a),
            Op::StartDhclient(i) => OpView::StartDhclient(i@),
            Op::WaitIpv4(i, t) => OpView::WaitIpv4(i@, *t),
            Op::Ipv4Cidr(i) => OpView::Ipv4Cidr(i@),
            Op::ReplaceDefaultVia(a, i) => OpView::ReplaceDefaultVia(*a, i@),
            Op::DelDefault => OpView::DelDefault,
            Op::DhcpReloadOrRestart(i) => OpView::DhcpReloadOrRestart(i@),
            Op::CarrierUp(i) => OpView::CarrierUp(i@),
            Op::HasIpv4(i) => OpView::HasIpv4(i@),
            Op::DhclientRunning(i) => OpView::DhclientRunning(i@),
        }
    }
}

/// What the live system answered.
#[derive(Debug)]
pub enum Answer {
    /// Nothing was asked yet.
    Ready,
    /// A request that succeeds or fails.
    Unit(Result<(), Error>),
    /// A yes/no observation.
    Flag(bool),
    /// The DHCP probe: a foreign server answered, or the probe failed.
    Found(Result<bool, Error>),
    /// A resolved interface name.
    Name(Result<String, Error>),
    /// The physical Ethernet names.
    Names(Result<Vec<String>, Error>),
    /// An interface's IPv4 CIDR, if any.
    Cidr(Option<String>),
}

/// The error of a failed request.
pub open spec fn failed(a: Answer) -> Option<Error> {
    match a {
        Answer::Unit(Err(e)) => Some(e),
        _ => None,
    }
}

/// The observation of a yes/no request (anything else reads as no).
pub open spec fn flag_of(a: Answer) -> bool {
    match a {
        Answer::Flag(b) => b,
        _ => false,
    }
}

/// The next step of a procedure: a request to make, in a new state, or the result.
pub enum Next<S, R> {
    Call(S, Op),
    Done(R),
}

/// A setup as values.
pub enum SetupView {
    Client,
    Static(Seq<char>),
    Gateway(Seq<char>),
}

impl View for Setup {
    type V = SetupView;

    open spec fn view(&self) -> SetupView {
        match self {
            Setup::Client => SetupView::Client,
            Setup::Static { cidr } => SetupView::Static(cidr@),
            Setup::Gateway { cidr } => SetupView::Gateway(cidr@),
        }
    }
}

/// The setup of a mode: static and gateway carry the address they add.
pub open spec fn setup_of_mode(cfg: Config, m: Mode) -> SetupView {
    match m {
        Mode::Client => SetupView::Client,
        Mode::Static => SetupView::Static(cfg.static_cidr_spec()),
        Mode::Gateway => SetupView::Gateway(cfg.gateway_cidr_spec()),
    }
}

/// How many requests a setup makes before the client lease wait / report.
pub open spec fn setup_len(s: SetupView) -> int {
    match s {
        SetupView::Client => 3,
        SetupView::Static(_) => 2,
        SetupView::Gateway(_) => 4,
    }
}

/// The `k`-th request of a setup on `iface`:
/// client: stop our dnsmasq, flush, start dhclient;
/// static: stop our dnsmasq, default route via `gateway.ip`;
/// gateway: flush, add its address, delete the default route, (re)start our dnsmasq.
pub open spec fn setup_op(cfg: Config, iface: Seq<char>, s: SetupView, k: int) -> OpView {
    match s {
        SetupView::Client => if k == 0 {
            OpView::DhcpStop
        } else if k == 1 {
            OpView::FlushAddr(iface)
        } else {
            OpView::StartDhclient(iface)
        },
        SetupView::Static(_) => if k == 0 {
            OpView::DhcpStop
        } else {
            OpView::ReplaceDefaultVia(cfg.gateway.ip, iface)
        },
        SetupView::Gateway(c) => if k == 0 {
            OpView::FlushAddr(iface)
        } else if k == 1 {
            OpView::AddAddr(iface, c)
        } else if k == 2 {
            OpView::DelDefault
        } else {
            OpView::DhcpReloadOrRestart(iface)
        },
    }
}

/// dnsmasq only in gateway mode: of the setups, only the gateway one
/// (re)starts our dnsmasq, and the client and static ones stop it first.
pub proof fn lemma_dnsmasq_only_in_gateway(cfg: Config, iface: Seq<char>, s: SetupView, k: int)
    requires
        0 <= k < setup_len(s),
    ensures
        setup_op(cfg, iface, s, k) is DhcpReloadOrRestart ==> s is Gateway,
        !(s is Gateway) ==> setup_op(cfg, iface, s, 0) == OpView::DhcpStop,
{
}

/// Where an apply run stands: the request it is waiting on.
pub enum ApplyState {
    Start,
    Resolving,
    Listing { iface: String },
    Releasing { iface: String, others: Vec<String>, next: usize, flushed: bool },
    BringingUp { iface: String },
    StoppingDhclient { iface: String },
    CheckingOwnDhcp { iface: String },
    StoppingOwnDhcp { iface: String },
    Probing { iface: String },
    TrialFlushing { iface: String },
    TrialAdding { iface: String },
    CheckingOurs { iface: String },
    Pinging { iface: String },
    Setting { iface: String, setup: Setup, step: usize },
    Waiting { iface: String },
    ReadingLease { iface: String },
    Reporting { iface: String, setup: Setup, lease: Option<String> },
}

/// An apply state as values.
pub enum ApplyView {
    Start,
    Resolving,
    Listing(Seq<char>),
    Releasing(Seq<char>, Seq<Seq<char>>, int, bool),
    BringingUp(Seq<char>),
    StoppingDhclient(Seq<char>),
    CheckingOwnDhcp(Seq<char>),
    StoppingOwnDhcp(Seq<char>),
    Probing(Seq<char>),
    TrialFlushing(Seq<char>),
    TrialAdding(Seq<char>),
    CheckingOurs(Seq<char>),
    Pinging(Seq<char>),
    Setting(Seq<char>, SetupView, int),
    Waiting(Seq<char>),
    ReadingLease(Seq<char>),
    Reporting(Seq<char>, SetupView, Option<Seq<char>>),
}

impl View for ApplyState {
    type V = ApplyView;

    open spec fn view(&self) -> ApplyView {
        match self {
            ApplyState::Start => ApplyView::Start,
            ApplyState::Resolving => ApplyView::Resolving,
            ApplyState::Listing { iface } => ApplyView::Listing(iface@),
            ApplyState::Releasing { iface, others, next, flushed } => ApplyView::Releasing(
                iface@,
                names_view(others@),
                *next as int,
                *flushed,
            ),
            ApplyState::BringingUp { iface } => ApplyView::BringingUp(iface@),
            ApplyState::StoppingDhclient { iface } => ApplyView::StoppingDhclient(iface@),
            ApplyState::CheckingOwnDhcp { iface } => ApplyView::CheckingOwnDhcp(iface@),
            ApplyState::StoppingOwnDhcp { iface } => ApplyView::StoppingOwnDhcp(iface@),
            ApplyState::Probing { iface } => ApplyView::Probing(iface@),
            ApplyState::TrialFlushing { iface } => ApplyView::TrialFlushing(iface@),
            ApplyState::TrialAdding { iface } => ApplyView::TrialAdding(iface@),
            ApplyState::CheckingOurs { iface } => ApplyView::CheckingOurs(iface@),
            ApplyState::Pinging { iface } => ApplyView::Pinging(iface@),
            ApplyState::Setting { iface, setup, step } => ApplyView::Setting(
                iface@,
                setup@,
                *step as int,
            ),
            ApplyState::Waiting { iface } => ApplyView::Waiting(iface@),
            ApplyState::ReadingLease { iface } => ApplyView::ReadingLease(iface@),
            ApplyState::Reporting { iface, setup, lease } => ApplyView::Reporting(
                iface@,
                setup@,
                cidr_view(*lease),
            ),
        }
    }
}

/// A setup that some probe and ping answers lead to under `policy`.
pub open spec fn possible_setup(cfg: Config, policy: ProbePolicy, s: SetupView) -> bool {
    exists|f: bool, o: bool, p: bool| s == setup_of_mode(cfg, chosen_mode(policy, f, o, p))
}

/// A state an apply run can be in: past the start only with a valid
/// configuration, with its indices in range, and with a setup that some
/// answers lead to (a lease only for a client).
pub open spec fn apply_wf(cfg: Config, policy: ProbePolicy, v: ApplyView) -> bool {
    &&& (v !is Start ==> config_fault(cfg) is None)
    &&& match v {
        ApplyView::Releasing(_, os, k, _) => 0 <= k < os.len(),
        ApplyView::Setting(_, s, k) => 0 <= k < setup_len(s) && possible_setup(cfg, policy, s),
        ApplyView::CheckingOwnDhcp(_) => policy == ProbePolicy::Full,
        ApplyView::StoppingOwnDhcp(_) => policy == ProbePolicy::Full,
        ApplyView::Probing(_) => policy == ProbePolicy::Full,
        ApplyView::Waiting(_) => possible_setup(cfg, policy, SetupView::Client),
        ApplyView::ReadingLease(_) => possible_setup(cfg, policy, SetupView::Client),
        ApplyView::Reporting(_, s, l) => possible_setup(cfg, policy, s) && (s !is Client
            ==> l is None),
        _ => true,
    }
}

/// How far an apply run is from its end (it only ever decreases).
pub open spec fn apply_phase(v: ApplyView) -> int {
    match v {
        ApplyView::Start => 20,
        ApplyView::Resolving => 19,
        ApplyView::Listing(_) => 18,
        ApplyView::Releasing(..) => 17,
        ApplyView::BringingUp(_) => 16,
        ApplyView::StoppingDhclient(_) => 15,
        ApplyView::CheckingOwnDhcp(_) => 14,
        ApplyView::StoppingOwnDhcp(_) => 13,
        ApplyView::Probing(_) => 12,
        ApplyView::TrialFlushing(_) => 11,
        ApplyView::TrialAdding(_) => 10,
        ApplyView::CheckingOurs(_) => 9,
        ApplyView::Pinging(_) => 8,
        ApplyView::Setting(..) => 7,
        ApplyView::Waiting(_) => 6,
        ApplyView::ReadingLease(_) => 5,
        ApplyView::Reporting(..) => 4,
    }
}

/// Requests left within a phase.
pub open spec fn apply_left(v: ApplyView) -> int {
    match v {
        ApplyView::Releasing(_, os, k, f) => 2 * (os.len() - k) - if f {
            1int
        } else {
            0
        },
        ApplyView::Setting(_, s, k) => setup_len(s) - k,
        _ => 0,
    }
}

/// `n` asks `o` in state `s`.
pub open spec fn asks<S: View, R>(n: Next<S, R>, s: S::V, o: OpView) -> bool {
    n matches Next::Call(s2, o2) && s2@ == s && o2@ == o
}

/// Starting a setup on `iface`: its first request.
pub open spec fn starts_setup(cfg: Config, n: Next<ApplyState, Result<Status, Error>>, iface: Seq<char>, s: SetupView) -> bool {
    asks(n, ApplyView::Setting(iface, s, 0), setup_op(cfg, iface, s, 0))
}

/// The report of a finished apply: the lease read back in client mode, the
/// setup's own address otherwise; the flags of the mode; our dnsmasq's state.
pub open spec fn reported(r: Status, iface: Seq<char>, s: SetupView, lease: Option<Seq<char>>, running: bool) -> bool {
    let mode = match s {
        SetupView::Client => Mode::Client,
        SetupView::Static(_) => Mode::Static,
        SetupView::Gateway(_) => Mode::Gateway,
    };
    &&& r.mode == mode
    &&& r.iface@ == iface
    &&& r.foreign_dhcp == (mode == Mode::Client)
    &&& r.gateway_reachable == (mode == Mode::Static)
    &&& r.dnsmasq_running == running
    &&& cidr_view(r.cidr) == match s {
        SetupView::Client => lease,
        SetupView::Static(c) => Some(c),
        SetupView::Gateway(c) => Some(c),
    }
}

/// One apply step. An invalid configuration ends the run with its error
/// before any request. Then: resolve `interface`; when it asks for an
/// automatic pick, list the physical Ethernet and flush and set down every
/// other one (their answers are not waited on); bring the iface up; stop its
/// dhclient. Under `Full`, ask whether our dnsmasq runs, stop it if so, then
/// probe on the iface with `probeTimeoutSecs` and no ignored servers;
/// `BecomeClient` goes straight to the client setup; `SkipDhcpWhileGateway`
/// skips the probe. A foreign offer means client; else the static trial:
/// flush, add `<static host>/24`, ask whether the iface holds `gateway.ip`
/// (then gateway, without a ping) and ping `gateway.ip` (answer: static,
/// silence: gateway). The setup's requests follow ([`setup_op`]); a client
/// then waits for its lease and reads it back; last, whether our dnsmasq
/// runs is asked and the status reported. A failed request ends the run with
/// its error; the probe's error comes back unchanged.
pub open spec fn apply_moves(
    cfg: Config,
    policy: ProbePolicy,
    v: ApplyView,
    a: Answer,
    n: Next<ApplyState, Result<Status, Error>>,
) -> bool {
    let gw = cfg.gateway.ip;
    match v {
        ApplyView::Start => match config_fault(cfg) {
            Some(m) => n matches Next::Done(Err(Error::Config(e))) && e@ == m,
            None => asks(n, ApplyView::Resolving, OpView::ResolveIface(cidr_view(cfg.interface))),
        },
        ApplyView::Resolving => match a {
            Answer::Name(Ok(i)) => if crate::net::is_auto_spec(cidr_view(cfg.interface)) {
                asks(n, ApplyView::Listing(i@), OpView::ListEthernet)
            } else {
                asks(n, ApplyView::BringingUp(i@), OpView::BringUp(i@))
            },
            Answer::Name(Err(e)) => n == Next::<ApplyState, Result<Status, Error>>::Done(Err(e)),
            _ => n == Next::<ApplyState, Result<Status, Error>>::Done(Err(Error::NoEthernet)),
        },
        ApplyView::Listing(i) => match a {
            Answer::Names(Ok(ns)) => {
                let os = others_of(names_view(ns@), i);
                if os.len() == 0 {
                    asks(n, ApplyView::BringingUp(i), OpView::BringUp(i))
                } else {
                    asks(n, ApplyView::Releasing(i, os, 0, false), OpView::FlushAddr(os[0]))
                }
            },
            _ => asks(n, ApplyView::BringingUp(i), OpView::BringUp(i)),
        },
        ApplyView::Releasing(i, os, k, f) => if !f {
            asks(n, ApplyView::Releasing(i, os, k, true), OpView::SetDown(os[k]))
        } else if k + 1 < os.len() {
            asks(n, ApplyView::Releasing(i, os, k + 1, false), OpView::FlushAddr(os[k + 1]))
        } else {
            asks(n, ApplyView::BringingUp(i), OpView::BringUp(i))
        },
        ApplyView::BringingUp(i) => match failed(a) {
            Some(e) => n == Next::<ApplyState, Result<Status, Error>>::Done(Err(e)),
            None => asks(n, ApplyView::StoppingDhclient(i), OpView::StopDhclient(i)),
        },
        ApplyView::StoppingDhclient(i) => match failed(a) {
            Some(e) => n == Next::<ApplyState, Result<Status, Error>>::Done(Err(e)),
            None => match policy {
                ProbePolicy::BecomeClient => starts_setup(cfg, n, i, SetupView::Client),
                ProbePolicy::SkipDhcpWhileGateway => asks(
                    n,
                    ApplyView::TrialFlushing(i),
                    OpView::FlushAddr(i),
                ),
                ProbePolicy::Full => asks(n, ApplyView::CheckingOwnDhcp(i), OpView::DhcpRunning),
            },
        },
        ApplyView::CheckingOwnDhcp(i) => if flag_of(a) {
            asks(n, ApplyView::StoppingOwnDhcp(i), OpView::DhcpStop)
        } else {
            asks(
                n,
                ApplyView::Probing(i),
                OpView::ProbeForeignDhcp(i, cfg.probe_timeout_secs, Seq::empty()),
            )
        },
        ApplyView::StoppingOwnDhcp(i) => match failed(a) {
            Some(e) => n == Next::<ApplyState, Result<Status, Error>>::Done(Err(e)),
            None => asks(
                n,
                ApplyView::Probing(i),
                OpView::ProbeForeignDhcp(i, cfg.probe_timeout_secs, Seq::empty()),
            ),
        },
        ApplyView::Probing(i) => match a {
            Answer::Found(Err(e)) => n == Next::<ApplyState, Result<Status, Error>>::Done(Err(e)),
            Answer::Found(Ok(true)) => starts_setup(cfg, n, i, SetupView::Client),
            _ => asks(n, ApplyView::TrialFlushing(i), OpView::FlushAddr(i)),
        },
        ApplyView::TrialFlushing(i) => match failed(a) {
            Some(e) => n == Next::<ApplyState, Result<Status, Error>>::Done(Err(e)),
            None => asks(n, ApplyView::TrialAdding(i), OpView::AddAddr(i, cfg.static_cidr_spec())),
        },
        ApplyView::TrialAdding(i) => match failed(a) {
            Some(e) => n == Next::<ApplyState, Result<Status, Error>>::Done(Err(e)),
            None => asks(n, ApplyView::CheckingOurs(i), OpView::HasAddr(i, gw)),
        },
        ApplyView::CheckingOurs(i) => if flag_of(a) {
            starts_setup(cfg, n, i, setup_of_mode(cfg, chosen_mode(policy, false, true, false)))
        } else {
            asks(n, ApplyView::Pinging(i), OpView::Ping(gw))
        },
        ApplyView::Pinging(i) => starts_setup(
            cfg,
            n,
            i,
            setup_of_mode(cfg, chosen_mode(policy, false, false, flag_of(a))),
        ),
        ApplyView::Setting(i, s, k) => match failed(a) {
            Some(e) => n == Next::<ApplyState, Result<Status, Error>>::Done(Err(e)),
            None => if k + 1 < setup_len(s) {
                asks(n, ApplyView::Setting(i, s, k + 1), setup_op(cfg, i, s, k + 1))
            } else if s is Client {
                asks(n, ApplyView::Waiting(i), OpView::WaitIpv4(i, DHCP_CLIENT_WAIT_MS))
            } else {
                asks(n, ApplyView::Reporting(i, s, None), OpView::DhcpRunning)
            },
        },
        ApplyView::Waiting(i) => asks(n, ApplyView::ReadingLease(i), OpView::Ipv4Cidr(i)),
        ApplyView::ReadingLease(i) => asks(
            n,
            ApplyView::Reporting(
                i,
                SetupView::Client,
                match a {
                    Answer::Cidr(l) => cidr_view(l),
                    _ => None,
                },
            ),
            OpView::DhcpRunning,
        ),
        ApplyView::Reporting(i, s, l) => n matches Next::Done(Ok(r)) && reported(
            r,
            i,
            s,
            l,
            flag_of(a),
        ),
    }
}

fn copy_str(s: &String) -> (r: String)
    ensures
        r@ == s@,
{
    String::from_str(s.as_str())
}

fn copy_opt(s: &Option<String>) -> (r: Option<String>)
    ensures
        cidr_view(r) == cidr_view(*s),
{
    match s {
        Some(t) => Some(copy_str(t)),
        None => None,
    }
}

fn copy_setup(s: &Setup) -> (r: Setup)
    ensures
        r@ == s@,
{
    match s {
        Setup::Client => Setup::Client,
        Setup::Static { cidr } => Setup::Static { cidr: copy_str(cidr) },
        Setup::Gateway { cidr } => Setup::Gateway { cidr: copy_str(cidr) },
    }
}

/// The `k`-th request of a setup (see [`setup_op`]).
fn setup_request(cfg: &Config, iface: &String, s: &Setup, k: usize) -> (r: Op)
    requires
        k < setup_len(s@),
    ensures
        r@ == setup_op(*cfg, iface@, s@, k as int),
{
    match s {
        Setup::Client => if k == 0 {
            Op::DhcpStop
        } else if k == 1 {
            Op::FlushAddr(copy_str(iface))
        } else {
            Op::StartDhclient(copy_str(iface))
        },
        Setup::Static { .. } => if k == 0 {
            Op::DhcpStop
        } else {
            Op::ReplaceDefaultVia(cfg.gateway.ip, copy_str(iface))
        },
        Setup::Gateway { cidr } => if k == 0 {
            Op::FlushAddr(copy_str(iface))
        } else if k == 1 {
            Op::AddAddr(copy_str(iface), copy_str(cidr))
        } else if k == 2 {
            Op::DelDefault
        } else {
            Op::DhcpReloadOrRestart(copy_str(iface))
        },
    }
}

fn begin_setup(cfg: &Config, policy: ProbePolicy, iface: String, s: Setup) -> (n: Next<
    ApplyState,
    Result<Status, Error>,
>)
    requires
        config_fault(*cfg) is None,
        possible_setup(*cfg, policy, s@),
    ensures
        starts_setup(*cfg, n, iface@, s@),
        n matches Next::Call(st, _) && apply_wf(*cfg, policy, st@),
{
    let op = setup_request(cfg, &iface, &s, 0);
    Next::Call(ApplyState::Setting { iface, setup: s, step: 0 }, op)
}

/// What every apply step guarantees: it moves as [`apply_moves`] says, a
/// report is one that some answers lead to, and a request keeps the run
/// well-formed and closer to its end.
pub open spec fn step_ok(
    cfg: Config,
    policy: ProbePolicy,
    v: ApplyView,
    a: Answer,
    n: Next<ApplyState, Result<Status, Error>>,
) -> bool {
    &&& apply_moves(cfg, policy, v, a, n)
    &&& (n matches Next::Done(Ok(r)) ==> {
        &&& config_fault(cfg) is None
        &&& status_shape(cfg, r)
        &&& r.mode == decide_spec(r.foreign_dhcp, r.gateway_reachable)
        &&& policy == ProbePolicy::BecomeClient ==> r.mode == Mode::Client
        &&& policy == ProbePolicy::SkipDhcpWhileGateway ==> r.mode != Mode::Client
        &&& exists|f: bool, o: bool, p: bool, l: Option<Seq<char>>, run: bool|
            #[trigger] apply_outcome(r, cfg, policy, f, o, p, l, run)
    })
    &&& (n matches Next::Call(s2, _) ==> {
        &&& apply_wf(cfg, policy, s2@)
        &&& (apply_phase(s2@) < apply_phase(v) || (apply_phase(s2@) == apply_phase(v) && 0
            <= apply_left(s2@) < apply_left(v)))
    })
}

fn step_begin(cfg: &Config, policy: ProbePolicy, st: ApplyState, a: Answer) -> (n: Next<
    ApplyState,
    Result<Status, Error>,
>)
    requires
        apply_wf(*cfg, policy, st@),
        st@ is Start || st@ is Resolving || st@ is Listing || st@ is Releasing,
    ensures
        step_ok(*cfg, policy, st@, a, n),
{
    let ghost v = st@;
    match st {
        ApplyState::Start => match cfg.validate() {
            Err(e) => Next::Done(Err(e)),
            Ok(()) => Next::Call(ApplyState::Resolving, Op::ResolveIface(copy_opt(&cfg.interface))),
        },
        ApplyState::Resolving => match a {
            Answer::Name(Ok(i)) => {
                let auto = match &cfg.interface {
                    Some(c) => crate::net::is_auto(Some(c.as_str())),
                    None => true,
                };
                if auto {
                    Next::Call(ApplyState::Listing { iface: i }, Op::ListEthernet)
                } else {
                    let op = Op::BringUp(copy_str(&i));
                    Next::Call(ApplyState::BringingUp { iface: i }, op)
                }
            },
            Answer::Name(Err(e)) => Next::Done(Err(e)),
            _ => Next::Done(Err(Error::NoEthernet)),
        },
        ApplyState::Listing { iface } => match a {
            Answer::Names(Ok(ns)) => {
                let os = other_ethernet(&ns, iface.as_str());
                if os.len() == 0 {
                    let op = Op::BringUp(copy_str(&iface));
                    Next::Call(ApplyState::BringingUp { iface }, op)
                } else {
                    let op = Op::FlushAddr(copy_str(&os[0]));
                    Next::Call(ApplyState::Releasing { iface, others: os, next: 0, flushed: false }, op)
                }
            },
            _ => {
                let op = Op::BringUp(copy_str(&iface));
                Next::Call(ApplyState::BringingUp { iface }, op)
            },
        },
        ApplyState::Releasing { iface, others, next, flushed } => {
            assert(v == ApplyView::Releasing(iface@, names_view(others@), next as int, flushed));
            assert(names_view(others@).len() == others@.len());
            assert(next < others@.len());
            if !flushed {
                let op = Op::SetDown(copy_str(&others[next]));
                Next::Call(ApplyState::Releasing { iface, others, next, flushed: true }, op)
            } else if next < others.len() - 1 {
                let op = Op::FlushAddr(copy_str(&others[next + 1]));
                Next::Call(
                    ApplyState::Releasing { iface, others, next: next + 1, flushed: false },
                    op,
                )
            } else {
                let op = Op::BringUp(copy_str(&iface));
                Next::Call(ApplyState::BringingUp { iface }, op)
            }
        },
        _ => Next::Done(Err(Error::NoEthernet)),
    }
}

fn step_prepare(cfg: &Config, policy: ProbePolicy, st: ApplyState, a: Answer) -> (n: Next<
    ApplyState,
    Result<Status, Error>,
>)
    requires
        apply_wf(*cfg, policy, st@),
        st@ is BringingUp || st@ is StoppingDhclient || st@ is CheckingOwnDhcp || st@ is StoppingOwnDhcp || st@ is Probing,
    ensures
        step_ok(*cfg, policy, st@, a, n),
{
    let ghost v = st@;
    match st {
        ApplyState::BringingUp { iface } => match a {
            Answer::Unit(Err(e)) => Next::Done(Err(e)),
            _ => {
                let op = Op::StopDhclient(copy_str(&iface));
                Next::Call(ApplyState::StoppingDhclient { iface }, op)
            },
        },
        ApplyState::StoppingDhclient { iface } => match a {
            Answer::Unit(Err(e)) => Next::Done(Err(e)),
            _ => match policy {
                ProbePolicy::BecomeClient => {
                    assert(SetupView::Client == setup_of_mode(*cfg, chosen_mode(policy, false, false, false)));
                    begin_setup(cfg, policy, iface, Setup::Client)
                },
                ProbePolicy::SkipDhcpWhileGateway => {
                    let op = Op::FlushAddr(copy_str(&iface));
                    Next::Call(ApplyState::TrialFlushing { iface }, op)
                },
                ProbePolicy::Full => Next::Call(ApplyState::CheckingOwnDhcp { iface }, Op::DhcpRunning),
            },
        },
        ApplyState::CheckingOwnDhcp { iface } => {
            let running = match a {
                Answer::Flag(b) => b,
                _ => false,
            };
            if running {
                Next::Call(ApplyState::StoppingOwnDhcp { iface }, Op::DhcpStop)
            } else {
                let none: Vec<Ipv4Addr> = Vec::new();
                let op = Op::ProbeForeignDhcp(copy_str(&iface), cfg.probe_timeout_secs, none);
                Next::Call(ApplyState::Probing { iface }, op)
            }
        },
        ApplyState::StoppingOwnDhcp { iface } => match a {
            Answer::Unit(Err(e)) => Next::Done(Err(e)),
            _ => {
                let none: Vec<Ipv4Addr> = Vec::new();
                let op = Op::ProbeForeignDhcp(copy_str(&iface), cfg.probe_timeout_secs, none);
                Next::Call(ApplyState::Probing { iface }, op)
            },
        },
        ApplyState::Probing { iface } => match a {
            Answer::Found(Err(e)) => Next::Done(Err(e)),
            Answer::Found(Ok(true)) => {
                assert(SetupView::Client == setup_of_mode(*cfg, chosen_mode(policy, true, false, false)));
                begin_setup(cfg, policy, iface, Setup::Client)
            },
            _ => {
                let op = Op::FlushAddr(copy_str(&iface));
                Next::Call(ApplyState::TrialFlushing { iface }, op)
            },
        },
        _ => Next::Done(Err(Error::NoEthernet)),
    }
}

fn step_trial(cfg: &Config, policy: ProbePolicy, st: ApplyState, a: Answer) -> (n: Next<
    ApplyState,
    Result<Status, Error>,
>)
    requires
        apply_wf(*cfg, policy, st@),
        st@ is TrialFlushing || st@ is TrialAdding || st@ is CheckingOurs || st@ is Pinging,
    ensures
        step_ok(*cfg, policy, st@, a, n),
{
    let ghost v = st@;
    match st {
        ApplyState::TrialFlushing { iface } => match a {
            Answer::Unit(Err(e)) => Next::Done(Err(e)),
            _ => {
                let op = Op::AddAddr(copy_str(&iface), cfg.static_cidr());
                Next::Call(ApplyState::TrialAdding { iface }, op)
            },
        },
        ApplyState::TrialAdding { iface } => match a {
            Answer::Unit(Err(e)) => Next::Done(Err(e)),
            _ => {
                let op = Op::HasAddr(copy_str(&iface), cfg.gateway.ip);
                Next::Call(ApplyState::CheckingOurs { iface }, op)
            },
        },
        ApplyState::CheckingOurs { iface } => {
            let ours = match a {
                Answer::Flag(b) => b,
                _ => false,
            };
            if ours {
                let s = choose_setup(cfg, policy, false, true, false);
                proof {
                    assert(s@ == setup_of_mode(*cfg, chosen_mode(policy, false, true, false)));
                }
                begin_setup(cfg, policy, iface, s)
            } else {
                Next::Call(ApplyState::Pinging { iface }, Op::Ping(cfg.gateway.ip))
            }
        },
        ApplyState::Pinging { iface } => {
            let ok = match a {
                Answer::Flag(b) => b,
                _ => false,
            };
            let s = choose_setup(cfg, policy, false, false, ok);
            proof {
                assert(s@ == setup_of_mode(*cfg, chosen_mode(policy, false, false, ok)));
            }
            begin_setup(cfg, policy, iface, s)
        },
        _ => Next::Done(Err(Error::NoEthernet)),
    }
}

fn step_finish(cfg: &Config, policy: ProbePolicy, st: ApplyState, a: Answer) -> (n: Next<
    ApplyState,
    Result<Status, Error>,
>)
    requires
        apply_wf(*cfg, policy, st@),
        st@ is Setting || st@ is Waiting || st@ is ReadingLease || st@ is Reporting,
    ensures
        step_ok(*cfg, policy, st@, a, n),
{
    let ghost v = st@;
    match st {
        ApplyState::Setting { iface, setup, step } => match a {
            Answer::Unit(Err(e)) => Next::Done(Err(e)),
            _ => {
                let len: usize = match &setup {
                    Setup::Client => 3,
                    Setup::Static { .. } => 2,
                    Setup::Gateway { .. } => 4,
                };
                if step + 1 < len {
                    let op = setup_request(cfg, &iface, &setup, step + 1);
                    Next::Call(ApplyState::Setting { iface, setup, step: step + 1 }, op)
                } else {
                    match setup {
                        Setup::Client => {
                            let op = Op::WaitIpv4(copy_str(&iface), DHCP_CLIENT_WAIT_MS);
                            Next::Call(ApplyState::Waiting { iface }, op)
                        },
                        _ => Next::Call(ApplyState::Reporting { iface, setup, lease: None }, Op::DhcpRunning),
                    }
                }
            },
        },
        ApplyState::Waiting { iface } => {
            let op = Op::Ipv4Cidr(copy_str(&iface));
            Next::Call(ApplyState::ReadingLease { iface }, op)
        },
        ApplyState::ReadingLease { iface } => {
            let lease = match a {
                Answer::Cidr(l) => l,
                _ => None,
            };
            Next::Call(ApplyState::Reporting { iface, setup: Setup::Client, lease }, Op::DhcpRunning)
        },
        ApplyState::Reporting { iface, setup, lease } => {
            let running = match a {
                Answer::Flag(b) => b,
                _ => false,
            };
            let ghost sv = setup@;
            let ghost lv = cidr_view(lease);
            let s = crate::apply::setup_status(iface.as_str(), &setup, lease, running);
            proof {
                let (f, o, p) = choose|f: bool, o: bool, p: bool|
                    sv == setup_of_mode(*cfg, chosen_mode(policy, f, o, p));
                assert(apply_outcome(s, *cfg, policy, f, o, p, lv, running));
            }
            Next::Done(Ok(s))
        },
        _ => Next::Done(Err(Error::NoEthernet)),
    }
}

/// One apply step (see [`apply_moves`]); every step moves the run closer to its end.
pub fn apply_step(cfg: &Config, policy: ProbePolicy, st: ApplyState, a: Answer) -> (n: Next<
    ApplyState,
    Result<Status, Error>,
>)
    requires
        apply_wf(*cfg, policy, st@),
    ensures
        step_ok(*cfg, policy, st@, a, n),
{
    match st {
        ApplyState::Start | ApplyState::Resolving | ApplyState::Listing { .. }
        | ApplyState::Releasing { .. } => step_begin(cfg, policy, st, a),
        ApplyState::BringingUp { .. } | ApplyState::StoppingDhclient { .. }
        | ApplyState::CheckingOwnDhcp { .. } | ApplyState::StoppingOwnDhcp { .. }
        | ApplyState::Probing { .. } => step_prepare(cfg, policy, st, a),
        ApplyState::TrialFlushing { .. } | ApplyState::TrialAdding { .. }
        | ApplyState::CheckingOurs { .. } | ApplyState::Pinging { .. } => step_trial(cfg, policy, st, a),
        _ => step_finish(cfg, policy, st, a),
    }
}

/// Where a teardown stands: the request it is waiting on.
pub enum TeardownState {
    Start,
    Resolving,
    StoppingDhcp { iface: String },
    StoppingDhclient { iface: String },
    Flushing { iface: String },
    DeletingDefault { iface: String },
    Reporting { iface: String },
}

/// A teardown state as values.
pub enum TeardownView {
    Start,
    Resolving,
    StoppingDhcp(Seq<char>),
    StoppingDhclient(Seq<char>),
    Flushing(Seq<char>),
    DeletingDefault(Seq<char>),
    Reporting(Seq<char>),
}

impl View for TeardownState {
    type V = TeardownView;

    open spec fn view(&self) -> TeardownView {
        match self {
            TeardownState::Start => TeardownView::Start,
            TeardownState::Resolving => TeardownView::Resolving,
            TeardownState::StoppingDhcp { iface } => TeardownView::StoppingDhcp(iface@),
            TeardownState::StoppingDhclient { iface } => TeardownView::StoppingDhclient(iface@),
            TeardownState::Flushing { iface } => TeardownView::Flushing(iface@),
            TeardownState::DeletingDefault { iface } => TeardownView::DeletingDefault(iface@),
            TeardownState::Reporting { iface } => TeardownView::Reporting(iface@),
        }
    }
}

/// How far a teardown is from its end.
pub open spec fn teardown_phase(v: TeardownView) -> int {
    match v {
        TeardownView::Start => 6,
        TeardownView::Resolving => 5,
        TeardownView::StoppingDhcp(_) => 4,
        TeardownView::StoppingDhclient(_) => 3,
        TeardownView::Flushing(_) => 2,
        TeardownView::DeletingDefault(_) => 1,
        TeardownView::Reporting(_) => 0,
    }
}

/// One teardown step. An invalid configuration ends it with its error before
/// any request. Then, without bringing anything up: resolve `interface`
/// passively, stop our dnsmasq, stop the iface's dhclient, flush the iface,
/// delete the default route; a failed request ends it with its error. Last,
/// whether our dnsmasq runs is asked, and the report is gateway mode on the
/// iface with no address and no probe flags.
pub open spec fn teardown_moves(
    cfg: Config,
    v: TeardownView,
    a: Answer,
    n: Next<TeardownState, Result<Status, Error>>,
) -> bool {
    match v {
        TeardownView::Start => match config_fault(cfg) {
            Some(m) => n matches Next::Done(Err(Error::Config(e))) && e@ == m,
            None => asks(
                n,
                TeardownView::Resolving,
                OpView::ResolveIfacePassive(cidr_view(cfg.interface)),
            ),
        },
        TeardownView::Resolving => match a {
            Answer::Name(Ok(i)) => asks(n, TeardownView::StoppingDhcp(i@), OpView::DhcpStop),
            Answer::Name(Err(e)) => n == Next::<TeardownState, Result<Status, Error>>::Done(Err(e)),
            _ => n == Next::<TeardownState, Result<Status, Error>>::Done(Err(Error::NoEthernet)),
        },
        TeardownView::StoppingDhcp(i) => match failed(a) {
            Some(e) => n == Next::<TeardownState, Result<Status, Error>>::Done(Err(e)),
            None => asks(n, TeardownView::StoppingDhclient(i), OpView::StopDhclient(i)),
        },
        TeardownView::StoppingDhclient(i) => match failed(a) {
            Some(e) => n == Next::<TeardownState, Result<Status, Error>>::Done(Err(e)),
            None => asks(n, TeardownView::Flushing(i), OpView::FlushAddr(i)),
        },
        TeardownView::Flushing(i) => match failed(a) {
            Some(e) => n == Next::<TeardownState, Result<Status, Error>>::Done(Err(e)),
            None => asks(n, TeardownView::DeletingDefault(i), OpView::DelDefault),
        },
        TeardownView::DeletingDefault(i) => match failed(a) {
            Some(e) => n == Next::<TeardownState, Result<Status, Error>>::Done(Err(e)),
            None => asks(n, TeardownView::Reporting(i), OpView::DhcpRunning),
        },
        TeardownView::Reporting(i) => n matches Next::Done(Ok(r)) && {
            &&& r.mode == Mode::Gateway
            &&& r.iface@ == i
            &&& r.cidr is None
            &&& !r.foreign_dhcp
            &&& !r.gateway_reachable
            &&& r.dnsmasq_running == flag_of(a)
        },
    }
}

/// One teardown step (see [`teardown_moves`]).
pub fn teardown_step(cfg: &Config, st: TeardownState, a: Answer) -> (n: Next<
    TeardownState,
    Result<Status, Error>,
>)
    requires
        st@ !is Start ==> config_fault(*cfg) is None,
    ensures
        teardown_moves(*cfg, st@, a, n),
        n matches Next::Call(s2, _) ==> config_fault(*cfg) is None && teardown_phase(s2@)
            < teardown_phase(st@),
{
    match st {
        TeardownState::Start => match cfg.validate() {
            Err(e) => Next::Done(Err(e)),
            Ok(()) => Next::Call(
                TeardownState::Resolving,
                Op::ResolveIfacePassive(copy_opt(&cfg.interface)),
            ),
        },
        TeardownState::Resolving => match a {
            Answer::Name(Ok(i)) => Next::Call(TeardownState::StoppingDhcp { iface: i }, Op::DhcpStop),
            Answer::Name(Err(e)) => Next::Done(Err(e)),
            _ => Next::Done(Err(Error::NoEthernet)),
        },
        TeardownState::StoppingDhcp { iface } => match a {
            Answer::Unit(Err(e)) => Next::Done(Err(e)),
            _ => {
                let op = Op::StopDhclient(copy_str(&iface));
                Next::Call(TeardownState::StoppingDhclient { iface }, op)
            },
        },
        TeardownState::StoppingDhclient { iface } => match a {
            Answer::Unit(Err(e)) => Next::Done(Err(e)),
            _ => {
                let op = Op::FlushAddr(copy_str(&iface));
                Next::Call(TeardownState::Flushing { iface }, op)
            },
        },
        TeardownState::Flushing { iface } => match a {
            Answer::Unit(Err(e)) => Next::Done(Err(e)),
            _ => Next::Call(TeardownState::DeletingDefault { iface }, Op::DelDefault),
        },
        TeardownState::DeletingDefault { iface } => match a {
            Answer::Unit(Err(e)) => Next::Done(Err(e)),
            _ => Next::Call(TeardownState::Reporting { iface }, Op::DhcpRunning),
        },
        TeardownState::Reporting { iface } => {
            let running = match a {
                Answer::Flag(b) => b,
                _ => false,
            };
            Next::Done(
                Ok(
                    Status {
                        mode: Mode::Gateway,
                        iface,
                        cidr: None,
                        foreign_dhcp: false,
                        gateway_reachable: false,
                        dnsmasq_running: running,
                    },
                ),
            )
        },
    }
}

/// Where a liveness check stands: the observation it is waiting on.
pub enum HealthState {
    Start,
    Carrier,
    Address,
    Process,
}

/// How far a liveness check is from its end.
pub open spec fn health_phase(s: HealthState) -> int {
    match s {
        HealthState::Start => 3,
        HealthState::Carrier => 2,
        HealthState::Address => 1,
        HealthState::Process => 0,
    }
}

/// One liveness step for `mode` on `iface`: an empty iface is unhealthy with
/// no request; else ask the iface's carrier (none: healthy, avoiding unplug
/// restart loops), then its IPv4 CIDR (none: unhealthy), then the process
/// of the mode (gateway: our dnsmasq, client: the iface's dhclient; static
/// needs none). The verdict is [`health_verdict`] of what was observed.
pub open spec fn health_moves(mode: Mode, iface: Seq<char>, s: HealthState, a: Answer, n: Next<HealthState, bool>) -> bool {
    match s {
        HealthState::Start => if iface.len() == 0 {
            n == Next::<HealthState, bool>::Done(health_verdict(mode, true, false, false, false, false))
        } else {
            n matches Next::Call(HealthState::Carrier, o) && o@ == OpView::CarrierUp(iface)
        },
        HealthState::Carrier => if !flag_of(a) {
            n == Next::<HealthState, bool>::Done(health_verdict(mode, false, false, false, false, false))
        } else {
            n matches Next::Call(HealthState::Address, o) && o@ == OpView::Ipv4Cidr(iface)
        },
        HealthState::Address => if !(a matches Answer::Cidr(Some(_))) {
            n == Next::<HealthState, bool>::Done(health_verdict(mode, false, true, false, false, false))
        } else {
            match mode {
                Mode::Gateway => n matches Next::Call(HealthState::Process, o) && o@ == OpView::DhcpRunning,
                Mode::Client => n matches Next::Call(HealthState::Process, o) && o@
                    == OpView::DhclientRunning(iface),
                Mode::Static => n == Next::<HealthState, bool>::Done(
                    health_verdict(mode, false, true, true, false, false),
                ),
            }
        },
        HealthState::Process => n == Next::<HealthState, bool>::Done(
            health_verdict(
                mode,
                false,
                true,
                true,
                mode == Mode::Gateway && flag_of(a),
                mode == Mode::Client && flag_of(a),
            ),
        ),
    }
}

/// One liveness step (see [`health_moves`]).
pub fn health_step(mode: Mode, iface: &str, s: HealthState, a: Answer) -> (n: Next<HealthState, bool>)
    ensures
        health_moves(mode, iface@, s, a, n),
        n matches Next::Call(s2, _) ==> health_phase(s2) < health_phase(s),
{
    match s {
        HealthState::Start => {
            if iface.unicode_len() == 0 {
                Next::Done(health_from(mode, true, false, false, false, false))
            } else {
                Next::Call(HealthState::Carrier, Op::CarrierUp(String::from_str(iface)))
            }
        },
        HealthState::Carrier => {
            let carrier = match a {
                Answer::Flag(b) => b,
                _ => false,
            };
            if !carrier {
                Next::Done(health_from(mode, false, false, false, false, false))
            } else {
                Next::Call(HealthState::Address, Op::Ipv4Cidr(String::from_str(iface)))
            }
        },
        HealthState::Address => {
            let present = match a {
                Answer::Cidr(Some(_)) => true,
                _ => false,
            };
            if !present {
                Next::Done(health_from(mode, false, true, false, false, false))
            } else {
                match mode {
                    Mode::Gateway => Next::Call(HealthState::Process, Op::DhcpRunning),
                    Mode::Client => Next::Call(
                        HealthState::Process,
                        Op::DhclientRunning(String::from_str(iface)),
                    ),
                    Mode::Static => Next::Done(health_from(mode, false, true, true, false, false)),
                }
            }
        },
        HealthState::Process => {
            let up = match a {
                Answer::Flag(b) => b,
                _ => false,
            };
            Next::Done(
                health_from(
                    mode,
                    false,
                    true,
                    true,
                    mode == Mode::Gateway && up,
                    mode == Mode::Client && up,
                ),
            )
        },
    }
}

/// Where the legacy interface check stands.
pub enum LegacyState {
    Start,
    Resolving,
    Carrier { iface: String },
    Address { iface: String },
}

/// How far a legacy check is from its end.
pub open spec fn legacy_phase(s: LegacyState) -> int {
    match s {
        LegacyState::Start => 3,
        LegacyState::Resolving => 2,
        LegacyState::Carrier { .. } => 1,
        LegacyState::Address { .. } => 0,
    }
}

/// One legacy-check step: resolve `interface`, then ask the iface's carrier
/// (none: down) and then whether it has an IPv4 address; the verdict is
/// [`legacy_verdict`](crate::daemon::legacy_verdict) of the two. A failed
/// resolve ends it with its error.
pub open spec fn legacy_moves(cfg: Config, s: LegacyState, a: Answer, n: Next<LegacyState, Result<bool, Error>>) -> bool {
    match s {
        LegacyState::Start => n matches Next::Call(LegacyState::Resolving, o) && o@ == OpView::ResolveIface(
            cidr_view(cfg.interface),
        ),
        LegacyState::Resolving => match a {
            Answer::Name(Ok(i)) => n matches Next::Call(LegacyState::Carrier { iface }, o) && iface@
                == i@ && o@ == OpView::CarrierUp(i@),
            Answer::Name(Err(e)) => n == Next::<LegacyState, Result<bool, Error>>::Done(Err(e)),
            _ => n == Next::<LegacyState, Result<bool, Error>>::Done(Err(Error::NoEthernet)),
        },
        LegacyState::Carrier { iface } => if flag_of(a) {
            n matches Next::Call(LegacyState::Address { iface: i2 }, o) && i2@ == iface@ && o@
                == OpView::HasIpv4(iface@)
        } else {
            n == Next::<LegacyState, Result<bool, Error>>::Done(Ok(false))
        },
        LegacyState::Address { .. } => n == Next::<LegacyState, Result<bool, Error>>::Done(
            Ok(flag_of(a)),
        ),
    }
}

/// One legacy-check step (see [`legacy_moves`]).
pub fn legacy_step(cfg: &Config, s: LegacyState, a: Answer) -> (n: Next<LegacyState, Result<bool, Error>>)
    ensures
        legacy_moves(*cfg, s, a, n),
        n matches Next::Call(s2, _) ==> legacy_phase(s2) < legacy_phase(s),
{
    match s {
        LegacyState::Start => Next::Call(LegacyState::Resolving, Op::ResolveIface(copy_opt(&cfg.interface))),
        LegacyState::Resolving => match a {
            Answer::Name(Ok(i)) => {
                let op = Op::CarrierUp(copy_str(&i));
                Next::Call(LegacyState::Carrier { iface: i }, op)
            },
            Answer::Name(Err(e)) => Next::Done(Err(e)),
            _ => Next::Done(Err(Error::NoEthernet)),
        },
        LegacyState::Carrier { iface } => {
            let carrier = match a {
                Answer::Flag(b) => b,
                _ => false,
            };
            if carrier {
                let op = Op::HasIpv4(copy_str(&iface));
                Next::Call(LegacyState::Address { iface }, op)
            } else {
                Next::Done(Ok(crate::daemon::legacy_verdict(false, false)))
            }
        },
        LegacyState::Address { .. } => {
            let present = match a {
                Answer::Flag(b) => b,
                _ => false,
            };
            Next::Done(Ok(crate::daemon::legacy_verdict(true, present)))
        },
    }
}

} // verus!
