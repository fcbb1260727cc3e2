use micronet::apply::plan::{
    apply_step, health_step, legacy_step, teardown_step, Answer, ApplyState, HealthState,
    LegacyState, Next, TeardownState,
};
use micronet::apply::{Mode, ProbePolicy, Status};
use micronet::config::Config;
use micronet::Error;

/// Run apply's steps with the answers given in order (after the first
/// request, which needs none); the requests made, as text, and the result.
fn run_apply(cfg: &Config, policy: ProbePolicy, answers: Vec<Answer>) -> (Vec<String>, Option<Result<Status, Error>>) {
    let mut ops = Vec::new();
    let mut st = ApplyState::Start;
    let mut a = Answer::Ready;
    let mut answers = answers.into_iter();
    loop {
        match apply_step(cfg, policy, st, a) {
            Next::Done(r) => return (ops, Some(r)),
            Next::Call(next, op) => {
                ops.push(format!("{op:?}"));
                st = next;
                match answers.next() {
                    Some(x) => a = x,
                    None => return (ops, None),
                }
            }
        }
    }
}

fn ok() -> Answer {
    Answer::Unit(Ok(()))
}

#[test]
fn apply_full_probe_then_static() {
    let cfg = Config { interface: Some("eth0".into()), ..Config::default() };
    let (ops, r) = run_apply(
        &cfg,
        ProbePolicy::Full,
        vec![
            Answer::Name(Ok("eth0".into())),
            ok(),
            ok(),
            Answer::Flag(true),
            ok(),
            Answer::Found(Ok(false)),
            ok(),
            ok(),
            Answer::Flag(false),
            Answer::Flag(true),
            ok(),
            ok(),
            Answer::Flag(false),
        ],
    );
    assert_eq!(
        ops,
        vec![
            "ResolveIface(Some(\"eth0\"))",
            "BringUp(\"eth0\")",
            "StopDhclient(\"eth0\")",
            "DhcpRunning",
            "DhcpStop",
            "ProbeForeignDhcp(\"eth0\", 5, [])",
            "FlushAddr(\"eth0\")",
            "AddAddr(\"eth0\", \"192.168.0.252/24\")",
            "HasAddr(\"eth0\", Ipv4Addr { a: 192, b: 168, c: 0, d: 1 })",
            "Ping(Ipv4Addr { a: 192, b: 168, c: 0, d: 1 })",
            "DhcpStop",
            "ReplaceDefaultVia(Ipv4Addr { a: 192, b: 168, c: 0, d: 1 }, \"eth0\")",
            "DhcpRunning",
        ]
    );
    let s = r.unwrap().unwrap();
    assert_eq!(s.mode, Mode::Static);
    assert_eq!(s.cidr.as_deref(), Some("192.168.0.252/24"));
    assert!(s.gateway_reachable && !s.foreign_dhcp && !s.dnsmasq_running);
}

#[test]
fn apply_auto_releases_others_and_serves() {
    let cfg = Config::default();
    let (ops, r) = run_apply(
        &cfg,
        ProbePolicy::SkipDhcpWhileGateway,
        vec![
            Answer::Name(Ok("eth1".into())),
            Answer::Names(Ok(vec!["eth0".into(), "eth1".into()])),
            ok(),
            ok(),
            ok(),
            ok(),
            ok(),
            ok(),
            Answer::Flag(false),
            Answer::Flag(false),
            ok(),
            ok(),
            ok(),
            ok(),
            Answer::Flag(true),
        ],
    );
    assert_eq!(
        ops,
        vec![
            "ResolveIface(None)",
            "ListEthernet",
            "FlushAddr(\"eth0\")",
            "SetDown(\"eth0\")",
            "BringUp(\"eth1\")",
            "StopDhclient(\"eth1\")",
            "FlushAddr(\"eth1\")",
            "AddAddr(\"eth1\", \"192.168.0.252/24\")",
            "HasAddr(\"eth1\", Ipv4Addr { a: 192, b: 168, c: 0, d: 1 })",
            "Ping(Ipv4Addr { a: 192, b: 168, c: 0, d: 1 })",
            "FlushAddr(\"eth1\")",
            "AddAddr(\"eth1\", \"192.168.0.1/24\")",
            "DelDefault",
            "DhcpReloadOrRestart(\"eth1\")",
            "DhcpRunning",
        ]
    );
    let s = r.unwrap().unwrap();
    assert_eq!(s.mode, Mode::Gateway);
    assert_eq!(s.iface, "eth1");
    assert_eq!(s.cidr.as_deref(), Some("192.168.0.1/24"));
    assert!(s.dnsmasq_running);
}

#[test]
fn apply_foreign_offer_is_client_and_probe_error_passes_through() {
    let cfg = Config { interface: Some("eth0".into()), ..Config::default() };
    let (ops, r) = run_apply(
        &cfg,
        ProbePolicy::Full,
        vec![
            Answer::Name(Ok("eth0".into())),
            ok(),
            ok(),
            Answer::Flag(false),
            Answer::Found(Ok(true)),
            ok(),
            ok(),
            ok(),
            Answer::Flag(true),
            Answer::Cidr(Some("192.168.0.50/24".into())),
            Answer::Flag(false),
        ],
    );
    assert_eq!(ops[4], "ProbeForeignDhcp(\"eth0\", 5, [])");
    assert_eq!(&ops[5..], &["DhcpStop", "FlushAddr(\"eth0\")", "StartDhclient(\"eth0\")", "WaitIpv4(\"eth0\", 5000)", "Ipv4Cidr(\"eth0\")", "DhcpRunning"]);
    let s = r.unwrap().unwrap();
    assert_eq!(s.mode, Mode::Client);
    assert_eq!(s.cidr.as_deref(), Some("192.168.0.50/24"));

    let probe_err = Error::DhcpProbe("socket".into());
    let (ops, r) = run_apply(
        &cfg,
        ProbePolicy::Full,
        vec![Answer::Name(Ok("eth0".into())), ok(), ok(), Answer::Flag(false), Answer::Found(Err(probe_err.clone()))],
    );
    assert_eq!(ops.len(), 5);
    assert_eq!(r.unwrap().unwrap_err(), probe_err);
}

#[test]
fn apply_invalid_config_asks_nothing() {
    let cfg = Config { link_retry_secs: 0, ..Config::default() };
    let (ops, r) = run_apply(&cfg, ProbePolicy::Full, vec![]);
    assert!(ops.is_empty());
    assert_eq!(r.unwrap().unwrap_err(), Error::Config("linkRetrySecs must be > 0".into()));
}

#[test]
fn teardown_steps_never_bring_up() {
    let cfg = Config::default();
    let mut ops = Vec::new();
    let mut st = TeardownState::Start;
    let mut answers = vec![
        Answer::Name(Ok("eth0".into())),
        Answer::Unit(Ok(())),
        Answer::Unit(Ok(())),
        Answer::Unit(Ok(())),
        Answer::Unit(Ok(())),
        Answer::Flag(false),
    ]
    .into_iter();
    let mut a = Answer::Ready;
    let r = loop {
        match teardown_step(&cfg, st, a) {
            Next::Done(r) => break r,
            Next::Call(next, op) => {
                ops.push(format!("{op:?}"));
                st = next;
                a = answers.next().unwrap();
            }
        }
    };
    assert_eq!(ops, vec!["ResolveIfacePassive(None)", "DhcpStop", "StopDhclient(\"eth0\")", "FlushAddr(\"eth0\")", "DelDefault", "DhcpRunning"]);
    let s = r.unwrap();
    assert_eq!(s.iface, "eth0");
    assert_eq!(s.mode, Mode::Gateway);
    assert!(s.cidr.is_none() && !s.dnsmasq_running);
}

#[test]
fn health_steps_observe_in_order() {
    let mut st = HealthState::Start;
    let mut a = Answer::Ready;
    let mut ops = Vec::new();
    let mut answers = vec![Answer::Flag(true), Answer::Cidr(Some("10.0.0.2/24".into())), Answer::Flag(false)].into_iter();
    let verdict = loop {
        match health_step(Mode::Client, "eth0", st, a) {
            Next::Done(v) => break v,
            Next::Call(next, op) => {
                ops.push(format!("{op:?}"));
                st = next;
                a = answers.next().unwrap();
            }
        }
    };
    assert_eq!(ops, vec!["CarrierUp(\"eth0\")", "Ipv4Cidr(\"eth0\")", "DhclientRunning(\"eth0\")"]);
    assert!(!verdict);
    assert!(matches!(health_step(Mode::Static, "", HealthState::Start, Answer::Ready), Next::Done(false)));
    assert!(matches!(health_step(Mode::Gateway, "eth0", HealthState::Carrier, Answer::Flag(false)), Next::Done(true)));
}

#[test]
fn legacy_steps() {
    let cfg = Config { interface: Some("eth2".into()), ..Config::default() };
    match legacy_step(&cfg, LegacyState::Start, Answer::Ready) {
        Next::Call(LegacyState::Resolving, op) => assert_eq!(format!("{op:?}"), "ResolveIface(Some(\"eth2\"))"),
        _ => panic!("expected a resolve request"),
    }
    match legacy_step(&cfg, LegacyState::Resolving, Answer::Name(Ok("eth2".into()))) {
        Next::Call(LegacyState::Carrier { iface }, op) => {
            assert_eq!(iface, "eth2");
            assert_eq!(format!("{op:?}"), "CarrierUp(\"eth2\")");
        }
        _ => panic!("expected a carrier request"),
    }
    assert!(matches!(
        legacy_step(&cfg, LegacyState::Carrier { iface: "eth2".into() }, Answer::Flag(false)),
        Next::Done(Ok(false))
    ));
    assert!(matches!(
        legacy_step(&cfg, LegacyState::Address { iface: "eth2".into() }, Answer::Flag(true)),
        Next::Done(Ok(true))
    ));
}
