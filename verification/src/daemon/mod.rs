//! Daemon decisions: what the loop does on a tick, a reload, a recheck result
//! or a carrier change, and how the command line of the legacy names is read.
//! The loop itself (threads, sockets, timers) runs outside the library.

use vstd::prelude::*;
use vstd::string::StringExecFns;
use vstd::string::StrSliceExecFns;

use crate::apply::plan;
use crate::apply::{
    apply_with, status_shape, teardown_with, GatewayCtl, Mode, ProbePolicy, Status,
};
use crate::config::config_fault;
use crate::error::Error;
use crate::ipc::protocol::Response;
use crate::net::NetOps;
use crate::config::{self, Config};
use crate::constants::{
    CARRIER_LOST_GRACE_MS, CARRIER_REAPPLY_BACKOFF_MS, GATEWAY_FOREIGN_DHCP_INTERVAL_MS,
};
use crate::datadir;
use crate::net::{is_auto, is_auto_spec, opt_view};
use crate::text::{str_eq, to_chars};

verus! {

/// How `micronet check` vs legacy `configure-* check` treat a missing daemon socket.
#[derive(Clone, Copy, Debug, PartialEq, Eq, Structural)]
pub enum CheckStyle {
    /// Socket down → unhealthy (microinit must restart the daemon).
    Daemon,
    /// Socket down → iface-only check (one-shot apply already exited).
    Legacy,
}

/// The legacy program names that act as one-shot aliases.
pub open spec fn is_legacy_name(name: Seq<char>) -> bool {
    name == "configure-ethernet"@ || name == "configure-dhcp"@
}

pub fn check_style_from_argv0(name: &str) -> (r: CheckStyle)
    ensures
        r == (if is_legacy_name(name@) {
            CheckStyle::Legacy
        } else {
            CheckStyle::Daemon
        }),
{
    if str_eq(name, "configure-ethernet") || str_eq(name, "configure-dhcp") {
        CheckStyle::Legacy
    } else {
        CheckStyle::Daemon
    }
}

/// Outcome of a background gateway-mode DHCPDISCOVER, tagged with the epoch
/// in which it was started.
#[derive(Clone, Copy, Debug, PartialEq, Eq, Structural)]
pub enum Recheck {
    Foreign(u64),
    Empty(u64),
    Failed(u64),
}

/// True when a gateway-mode recheck should yield (stop dnsmasq, become client):
/// only a foreign offer found in the current epoch does.
pub fn should_yield_gateway(current_epoch: u64, result: Recheck) -> (r: bool)
    ensures
        r == (result == Recheck::Foreign(current_epoch)),
{
    match result {
        Recheck::Foreign(e) => e == current_epoch,
        _ => false,
    }
}

/// The epoch after `e` (wrapping).
pub open spec fn next_epoch(e: u64) -> u64 {
    if e == u64::MAX {
        0
    } else {
        (e + 1) as u64
    }
}

/// The next epoch (every reload, reconfigure, carrier re-apply and yield starts one).
pub fn bump_epoch(epoch: &mut u64)
    ensures
        *final(epoch) == next_epoch(*old(epoch)),
{
    *epoch = epoch.wrapping_add(1);
}

/// Carrier lost for at least `wait_ms`, and no back-off pending: re-select the iface.
pub open spec fn reapply_after(
    carrier: bool,
    lost_since: Option<u64>,
    now: u64,
    next_allowed: Option<u64>,
    wait_ms: int,
) -> bool {
    &&& !carrier
    &&& lost_since is Some
    &&& (if now >= lost_since->0 {
        now - lost_since->0
    } else {
        0
    }) >= wait_ms
    &&& !(next_allowed matches Some(t) && now < t)
}

/// [`reapply_after`] with the built-in grace `CARRIER_LOST_GRACE_MS`.
pub open spec fn reapply_due(
    carrier: bool,
    lost_since: Option<u64>,
    now: u64,
    next_allowed: Option<u64>,
) -> bool {
    reapply_after(carrier, lost_since, now, next_allowed, CARRIER_LOST_GRACE_MS as int)
}

/// The loss has lasted `wait_ms` (checked, so an overflowing wait is never reached).
fn lost_long_enough(since: u64, now: u64, wait_ms: Option<u64>) -> (r: bool)
    ensures
        r == (wait_ms matches Some(w) && (if now >= since { now - since } else { 0 }) >= w),
{
    match wait_ms {
        Some(w) => now.saturating_sub(since) >= w,
        None => false,
    }
}

/// True when auto-picked iface should be re-resolved after sustained carrier
/// loss, with the fixed grace `CARRIER_LOST_GRACE_MS` (the daemon's carrier
/// watch, [`carrier_check`], waits the configured `linkRetrySecs` instead).
/// Times are monotonic milliseconds.
pub fn should_reapply_on_carrier_loss(
    carrier: bool,
    lost_since: Option<u64>,
    now: u64,
    next_allowed: Option<u64>,
) -> (r: bool)
    ensures
        r == reapply_due(carrier, lost_since, now, next_allowed),
{
    if carrier {
        return false;
    }
    let since = match lost_since {
        Some(s) => s,
        None => {
            return false;
        },
    };
    if now.saturating_sub(since) < CARRIER_LOST_GRACE_MS {
        return false;
    }
    match next_allowed {
        Some(t) => !(now < t),
        None => true,
    }
}

/// The configured iface is pinned (neither `None` nor `"auto"`).
pub fn iface_is_pinned(cfg: &Config) -> (r: bool)
    ensures
        r == !is_auto_spec(
            match cfg.interface {
                Some(s) => Some(s@),
                None => None,
            },
        ),
{
    match &cfg.interface {
        Some(s) => !is_auto(Some(s.as_str())),
        None => false,
    }
}

/// Carrier bookkeeping of the daemon between ticks.
#[derive(Clone, Copy, Debug, PartialEq, Eq, Structural)]
pub struct CarrierWatch {
    /// When the carrier was first seen missing, if it is missing.
    pub lost_since: Option<u64>,
    /// No re-apply before this time.
    pub next_allowed: Option<u64>,
}

/// One carrier tick: updates the bookkeeping and says whether to re-apply now.
/// The wait is the configured `linkRetrySecs`, in seconds; times are
/// monotonic milliseconds.
pub fn carrier_check(
    w: &mut CarrierWatch,
    pinned: bool,
    iface_empty: bool,
    carrier: bool,
    now: u64,
    link_retry_secs: u64,
) -> (r: bool)
    ensures
        pinned ==> !r && final(w).lost_since is None && final(w).next_allowed
            == old(w).next_allowed,
        !pinned && iface_empty ==> !r && *final(w) == *old(w),
        !pinned && !iface_empty && carrier ==> !r && final(w).lost_since is None
            && final(w).next_allowed == old(w).next_allowed,
        !pinned && !iface_empty && !carrier ==> {
            let since = match old(w).lost_since {
                Some(t) => t,
                None => now,
            };
            &&& r == reapply_after(
                false,
                Some(since),
                now,
                old(w).next_allowed,
                link_retry_secs * 1000,
            )
            &&& final(w).next_allowed == old(w).next_allowed
            &&& final(w).lost_since == (if r {
                None
            } else {
                Some(since)
            })
        },
{
    if pinned {
        w.lost_since = None;
        return false;
    }
    if iface_empty {
        return false;
    }
    if carrier {
        w.lost_since = None;
        return false;
    }
    let since = match w.lost_since {
        Some(t) => t,
        None => now,
    };
    w.lost_since = Some(since);
    let waited = lost_long_enough(since, now, link_retry_secs.checked_mul(1000));
    let allowed = match w.next_allowed {
        Some(t) => !(now < t),
        None => true,
    };
    if !(waited && allowed) {
        return false;
    }
    w.lost_since = None;
    true
}

/// After a carrier re-apply finished at `now`: back off before the next one.
pub fn carrier_reapplied(w: &mut CarrierWatch, now: u64)
    ensures
        final(w).next_allowed == Some(
            (if now as int + CARRIER_REAPPLY_BACKOFF_MS > u64::MAX {
                u64::MAX as int
            } else {
                now as int + CARRIER_REAPPLY_BACKOFF_MS
            }) as u64,
        ),
        final(w).lost_since is None,
{
    w.next_allowed = Some(now.saturating_add(CARRIER_REAPPLY_BACKOFF_MS));
    w.lost_since = None;
}

/// Probe policy after a config reload: no DHCPDISCOVER while we may be serving.
pub fn reload_policy(prev_mode: Mode) -> (r: ProbePolicy)
    ensures
        r == (if prev_mode == Mode::Gateway {
            ProbePolicy::SkipDhcpWhileGateway
        } else {
            ProbePolicy::Full
        }),
{
    if prev_mode == Mode::Gateway {
        ProbePolicy::SkipDhcpWhileGateway
    } else {
        ProbePolicy::Full
    }
}

/// Whether to start a background gateway-mode DHCPDISCOVER now; when it
/// starts, the next one is scheduled one interval later.
pub fn gateway_recheck_due(
    now: u64,
    next_probe: &mut u64,
    in_flight: bool,
    mode: Mode,
    iface_empty: bool,
) -> (r: bool)
    ensures
        r == (now >= *old(next_probe) && !in_flight && mode == Mode::Gateway && !iface_empty),
        r ==> *final(next_probe) == (if now as int + GATEWAY_FOREIGN_DHCP_INTERVAL_MS > u64::MAX {
            u64::MAX as int
        } else {
            now as int + GATEWAY_FOREIGN_DHCP_INTERVAL_MS
        }),
        !r ==> *final(next_probe) == *old(next_probe),
{
    if now < *next_probe {
        return false;
    }
    if in_flight {
        return false;
    }
    if mode != Mode::Gateway || iface_empty {
        return false;
    }
    *next_probe = now.saturating_add(GATEWAY_FOREIGN_DHCP_INTERVAL_MS);
    true
}

/// Record a live refresh: the observed CIDR and dnsmasq state replace the
/// cached ones. Returns true when a client lease just appeared.
pub fn refresh_status(st: &mut Status, cidr: Option<String>, dnsmasq_running: bool) -> (r: bool)
    ensures
        final(st).mode == old(st).mode,
        final(st).iface == old(st).iface,
        final(st).foreign_dhcp == old(st).foreign_dhcp,
        final(st).gateway_reachable == old(st).gateway_reachable,
        final(st).cidr == cidr,
        final(st).dnsmasq_running == dnsmasq_running,
        r == (old(st).mode == Mode::Client && old(st).cidr is None && cidr is Some),
{
    let acquired = st.mode == Mode::Client && st.cidr.is_none() && cidr.is_some();
    st.cidr = cidr;
    st.dnsmasq_running = dnsmasq_running;
    acquired
}

/// Resolve a `--socket` / `--config` value: relative joined under the data root,
/// absolute kept, missing → `default`.
pub open spec fn resolved_path(cli: Option<Seq<char>>, root: Seq<char>, default: Seq<char>) -> Seq<
    char,
> {
    match cli {
        None => default,
        Some(p) => if p.len() > 0 && p[0] == '/' {
            p
        } else {
            datadir::join(root, p)
        },
    }
}

fn resolve_path(cli: Option<&str>, root: &str, default: String) -> (r: String)
    ensures
        r@ == resolved_path(opt_view(cli), root@, default@),
{
    match cli {
        None => default,
        Some(p) => {
            let v = to_chars(p);
            if v.len() > 0 && v[0] == '/' {
                String::from_str(p)
            } else {
                datadir::join_path(root, p)
            }
        },
    }
}

/// Resolve `--socket`: relative joined under data root; absolute kept.
pub fn resolve_socket(cli: Option<&str>, root: &str) -> (r: String)
    ensures
        r@ == resolved_path(
            opt_view(cli),
            root@,
            datadir::join_all(root@, seq!["run"@, "micronet.sock"@]),
        ),
{
    resolve_path(cli, root, crate::ipc::default_socket(root))
}

/// Resolve `--config`: relative joined under data root; absolute kept.
pub fn resolve_config(cli: Option<&str>, root: &str) -> (r: String)
    ensures
        r@ == resolved_path(
            opt_view(cli),
            root@,
            datadir::join_all(root@, seq!["etc"@, "micronet.json"@]),
        ),
{
    resolve_path(cli, root, config::default_config_path(root))
}

// ------------------------------------------------------ legacy command line

/// What the legacy names (`configure-ethernet`, `configure-dhcp`) run.
#[derive(Clone, Copy, Debug, PartialEq, Eq, Structural)]
pub enum AliasCommand {
    Apply,
    Check,
    Serve,
}

/// A parsed legacy command line.
#[derive(Clone, Debug, PartialEq, Eq)]
pub struct AliasArgs {
    pub data_dir: Option<String>,
    pub config: Option<String>,
    pub socket: Option<String>,
    pub command: AliasCommand,
}

/// A rejected legacy command line.
#[derive(Clone, Debug, PartialEq, Eq)]
pub enum AliasError {
    UnknownOption(String),
    UnknownCommand(String),
}

/// The spec view of a parse state: the three options and the command.
pub struct AliasState {
    pub data_dir: Option<Seq<char>>,
    pub config: Option<Seq<char>>,
    pub socket: Option<Seq<char>>,
    pub command: AliasCommand,
}

pub open spec fn is_apply_word(a: Seq<char>) -> bool {
    a == "up"@ || a == "configure"@ || a == "start"@ || a == "apply"@
}

/// Reading the rest of a legacy command line from state `st`: an error names
/// the offending word and whether it looked like an option.
pub open spec fn alias_parse(args: Seq<Seq<char>>, st: AliasState) -> Result<AliasState, (bool, Seq<char>)>
    decreases args.len(),
{
    if args.len() == 0 {
        Ok(st)
    } else {
        let a = args[0];
        if a == "--data-dir"@ && args.len() > 1 {
            alias_parse(args.drop_first().drop_first(), AliasState { data_dir: Some(args[1]), ..st })
        } else if a == "--config"@ && args.len() > 1 {
            alias_parse(args.drop_first().drop_first(), AliasState { config: Some(args[1]), ..st })
        } else if a == "--socket"@ && args.len() > 1 {
            alias_parse(args.drop_first().drop_first(), AliasState { socket: Some(args[1]), ..st })
        } else if is_apply_word(a) {
            alias_parse(args.drop_first(), AliasState { command: AliasCommand::Apply, ..st })
        } else if a == "check"@ {
            alias_parse(args.drop_first(), AliasState { command: AliasCommand::Check, ..st })
        } else if a == "serve"@ || a == "run"@ {
            alias_parse(args.drop_first(), AliasState { command: AliasCommand::Serve, ..st })
        } else if a.len() > 0 && a[0] == '-' {
            Err((true, a))
        } else {
            Err((false, a))
        }
    }
}

pub open spec fn alias_start() -> AliasState {
    AliasState { data_dir: None, config: None, socket: None, command: AliasCommand::Apply }
}

pub open spec fn opt_string_view(o: Option<String>) -> Option<Seq<char>> {
    match o {
        Some(s) => Some(s@),
        None => None,
    }
}

pub open spec fn alias_args_view(a: AliasArgs) -> AliasState {
    AliasState {
        data_dir: opt_string_view(a.data_dir),
        config: opt_string_view(a.config),
        socket: opt_string_view(a.socket),
        command: a.command,
    }
}

pub open spec fn args_view(args: Seq<String>) -> Seq<Seq<char>> {
    args.map_values(|s: String| s@)
}

/// Parse the arguments (after argv0) of a legacy name: `--data-dir`,
/// `--config`, `--socket` take a value; `up`/`configure`/`start`/`apply`,
/// `check` and `serve`/`run` choose the command (last one wins, default apply).
pub fn parse_alias_args(args: &Vec<String>) -> (r: Result<AliasArgs, AliasError>)
    ensures
        match alias_parse(args_view(args@), alias_start()) {
            Ok(st) => r matches Ok(a) && alias_args_view(a) == st,
            Err((true, w)) => r matches Err(AliasError::UnknownOption(s)) && s@ == w,
            Err((false, w)) => r matches Err(AliasError::UnknownCommand(s)) && s@ == w,
        },
{
    let ghost all = args_view(args@);
    let mut out = AliasArgs { data_dir: None, config: None, socket: None, command: AliasCommand::Apply };
    let mut i: usize = 0;
    let n = args.len();
    assert(all.skip(0) =~= all);
    while i < n
        invariant
            n == args@.len(),
            all == args_view(args@),
            i <= n,
            alias_parse(all, alias_start()) == alias_parse(all.skip(i as int), alias_args_view(out)),
        decreases n - i,
    {
        let a = args[i].as_str();
        let ghost rest = all.skip(i as int);
        assert(rest[0] == a@);
        assert(rest.drop_first() =~= all.skip(i + 1));
        proof {
            if i + 1 < n {
                assert(rest[1] == args@[i + 1]@);
                assert(rest.drop_first().drop_first() =~= all.skip(i + 2));
            }
        }
        if str_eq(a, "--data-dir") && i + 1 < n {
            out.data_dir = Some(args[i + 1].clone());
            i = i + 2;
        } else if str_eq(a, "--config") && i + 1 < n {
            out.config = Some(args[i + 1].clone());
            i = i + 2;
        } else if str_eq(a, "--socket") && i + 1 < n {
            out.socket = Some(args[i + 1].clone());
            i = i + 2;
        } else if str_eq(a, "up") || str_eq(a, "configure") || str_eq(a, "start") || str_eq(
            a,
            "apply",
        ) {
            out.command = AliasCommand::Apply;
            i = i + 1;
        } else if str_eq(a, "check") {
            out.command = AliasCommand::Check;
            i = i + 1;
        } else if str_eq(a, "serve") || str_eq(a, "run") {
            out.command = AliasCommand::Serve;
            i = i + 1;
        } else {
            let v = to_chars(a);
            if v.len() > 0 && v[0] == '-' {
                return Err(AliasError::UnknownOption(String::from_str(a)));
            }
            return Err(AliasError::UnknownCommand(String::from_str(a)));
        }
    }
    assert(all.skip(n as int) =~= Seq::<Seq<char>>::empty());
    Ok(out)
}

/// One-shot apply (CLI `apply` / argv0 aliases) of a loaded config, with a
/// full DHCPDISCOVER probe.
pub fn apply_once<N: NetOps, G: GatewayCtl>(cfg: &Config, net: &N, gw: &G) -> (r: Result<Status, Error>)
    ensures
        config_fault(*cfg) matches Some(m) ==> (r matches Err(Error::Config(e)) && e@ == m),
        r matches Ok(s) ==> config_fault(*cfg) is None && status_shape(*cfg, s),
{
    apply_with(cfg, ProbePolicy::Full, net, gw)
}

/// One-shot teardown of managed dnsmasq/dhclient/addresses.
pub fn teardown<N: NetOps, G: GatewayCtl>(cfg: &Config, net: &N, gw: &G) -> (r: Result<Status, Error>)
    ensures
        config_fault(*cfg) matches Some(m) ==> (r matches Err(Error::Config(e)) && e@ == m),
        r matches Ok(s) ==> {
            &&& config_fault(*cfg) is None
            &&& s.mode == Mode::Gateway
            &&& s.cidr is None
            &&& !s.foreign_dhcp
            &&& !s.gateway_reachable
        },
{
    teardown_with(cfg, net, gw)
}

/// What `check` concludes from the daemon's reply.
#[derive(Clone, Copy, Debug, PartialEq, Eq, Structural)]
pub enum Liveness {
    /// Healthy or not.
    Verdict(bool),
    /// The daemon is unreachable and this is a legacy one-shot name: judge
    /// the interface itself (see [`legacy_iface_up`]).
    CheckIface,
}

/// Liveness from the reply to a `status` request: the reply's `healthy`
/// field is the verdict, any other reply is unhealthy, an unreachable socket
/// is unhealthy for the daemon and sends a legacy name to the interface check
/// (see [`legacy_iface_up`]), and other failures are passed on.
pub fn check_liveness(reply: Result<Response, Error>, style: CheckStyle) -> (r: Result<
    Liveness,
    Error,
>)
    ensures
        match reply {
            Ok(Response::Status { healthy, .. }) => r == Ok::<Liveness, Error>(
                Liveness::Verdict(healthy),
            ),
            Ok(_) => r == Ok::<Liveness, Error>(Liveness::Verdict(false)),
            Err(Error::Io(_)) | Err(Error::IoPath { .. }) => r == Ok::<Liveness, Error>(
                if style == CheckStyle::Daemon {
                    Liveness::Verdict(false)
                } else {
                    Liveness::CheckIface
                },
            ),
            Err(e) => r == Err::<Liveness, Error>(e),
        },
{
    match reply {
        Ok(Response::Status { healthy, .. }) => Ok(Liveness::Verdict(healthy)),
        Ok(_) => Ok(Liveness::Verdict(false)),
        Err(Error::Io(_)) | Err(Error::IoPath { .. }) => {
            match style {
                CheckStyle::Daemon => Ok(Liveness::Verdict(false)),
                CheckStyle::Legacy => Ok(Liveness::CheckIface),
            }
        },
        Err(e) => Err(e),
    }
}

/// The legacy verdict on an interface: it has carrier and an IPv4 address.
pub fn legacy_verdict(carrier: bool, has_ipv4: bool) -> (r: bool)
    ensures
        r == (carrier && has_ipv4),
{
    carrier && has_ipv4
}

/// The legacy interface check: the configured (or auto-picked) interface
/// has carrier and an IPv4 address. The steps of
/// [`plan::legacy_step`](crate::apply::plan::legacy_step) (what is asked and
/// the verdict for each answer are stated there), each request carried out
/// through `net`.
pub fn legacy_iface_up<N: NetOps>(cfg: &Config, net: &N) -> (r: Result<bool, Error>) {
    let mut st = plan::LegacyState::Start;
    let mut a = plan::Answer::Ready;
    loop
        decreases plan::legacy_phase(st),
    {
        match plan::legacy_step(cfg, st, a) {
            plan::Next::Done(r) => {
                return r;
            },
            plan::Next::Call(next, op) => {
                a = crate::apply::perform_net(&op, net);
                st = next;
            },
        }
    }
}

/// A configuration reload: a candidate that failed to load, or that does
/// not validate, leaves the previous configuration in force and nothing is
/// applied; a valid one replaces it and is applied with the policy for the
/// mode the daemon was in (see [`reload_policy`]).
pub fn config_reload(prev: Config, loaded: Result<Config, Error>, prev_mode: Mode) -> (r: (
    Config,
    Option<ProbePolicy>,
))
    ensures
        match loaded {
            Ok(c) => if config_fault(c) is None {
                r.0 == c && r.1 == Some(
                    if prev_mode == Mode::Gateway {
                        ProbePolicy::SkipDhcpWhileGateway
                    } else {
                        ProbePolicy::Full
                    },
                )
            } else {
                r.0 == prev && r.1 is None
            },
            Err(_) => r.0 == prev && r.1 is None,
        },
{
    match loaded {
        Ok(c) => match c.validate() {
            Ok(()) => {
                let p = reload_policy(prev_mode);
                (c, Some(p))
            },
            Err(_) => (prev, None),
        },
        Err(_) => (prev, None),
    }
}

/// What the daemon loop is told, besides a configuration change.
#[derive(Clone, Copy, Debug, PartialEq, Eq, Structural)]
pub enum DaemonEvent {
    /// An IPC `reconfigure` request.
    Reconfigure,
    /// A background gateway-mode recheck finished.
    Recheck(Recheck),
    /// The carrier watch says the auto-picked iface must be re-selected.
    CarrierLost,
}

/// One daemon event: a reconfigure or a carrier re-select starts a new epoch
/// and runs a full apply; a recheck that found a foreign DHCP server in the
/// current epoch starts a new epoch and yields (becomes client); any other
/// recheck result changes nothing.
pub fn on_event(epoch: &mut u64, event: DaemonEvent) -> (r: Option<ProbePolicy>)
    ensures
        match event {
            DaemonEvent::Reconfigure | DaemonEvent::CarrierLost => r == Some(ProbePolicy::Full)
                && *final(epoch) == next_epoch(*old(epoch)),
            DaemonEvent::Recheck(res) => if res == Recheck::Foreign(*old(epoch)) {
                r == Some(ProbePolicy::BecomeClient) && *final(epoch) == next_epoch(*old(epoch))
            } else {
                r is None && *final(epoch) == *old(epoch)
            },
        },
{
    match event {
        DaemonEvent::Reconfigure | DaemonEvent::CarrierLost => {
            bump_epoch(epoch);
            Some(ProbePolicy::Full)
        },
        DaemonEvent::Recheck(res) => {
            if should_yield_gateway(*epoch, res) {
                bump_epoch(epoch);
                Some(ProbePolicy::BecomeClient)
            } else {
                None
            }
        },
    }
}

/// A change of the configuration file: a new epoch starts whatever the file
/// holds, then the reload keeps or replaces the configuration (see
/// [`config_reload`]).
pub fn on_config_change(
    epoch: &mut u64,
    prev: Config,
    loaded: Result<Config, Error>,
    prev_mode: Mode,
) -> (r: (Config, Option<ProbePolicy>))
    ensures
        *final(epoch) == next_epoch(*old(epoch)),
        match loaded {
            Ok(c) => if config_fault(c) is None {
                r.0 == c && r.1 == Some(
                    if prev_mode == Mode::Gateway {
                        ProbePolicy::SkipDhcpWhileGateway
                    } else {
                        ProbePolicy::Full
                    },
                )
            } else {
                r.0 == prev && r.1 is None
            },
            Err(_) => r.0 == prev && r.1 is None,
        },
{
    bump_epoch(epoch);
    config_reload(prev, loaded, prev_mode)
}

} // verus!
