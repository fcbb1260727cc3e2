use micronet::apply::{Mode, ProbePolicy, Status};
use micronet::config::Config;
use micronet::daemon::{config_reload, on_config_change, on_event, DaemonEvent};
use micronet::daemon::{
    bump_epoch, carrier_check, carrier_reapplied, check_style_from_argv0, gateway_recheck_due,
    iface_is_pinned, parse_alias_args, refresh_status, reload_policy, resolve_config,
    resolve_socket, should_reapply_on_carrier_loss, should_yield_gateway, AliasCommand,
    AliasError, CarrierWatch, CheckStyle, Recheck,
};

#[test]
fn check_style_from_argv0_matrix() {
    assert_eq!(check_style_from_argv0("micronet"), CheckStyle::Daemon);
    assert_eq!(check_style_from_argv0("configure-ethernet"), CheckStyle::Legacy);
    assert_eq!(check_style_from_argv0("configure-dhcp"), CheckStyle::Legacy);
}

#[test]
fn stale_epoch_does_not_yield() {
    assert!(!should_yield_gateway(1, Recheck::Foreign(0)));
    assert!(should_yield_gateway(1, Recheck::Foreign(1)));
    assert!(!should_yield_gateway(1, Recheck::Empty(1)));
    assert!(!should_yield_gateway(1, Recheck::Failed(1)));
    assert!(!should_yield_gateway(2, Recheck::Foreign(1)));
}

#[test]
fn carrier_loss_reapply_matrix() {
    let now: u64 = 20_000;
    let lost: u64 = now - 11_000;
    assert!(!should_reapply_on_carrier_loss(true, Some(lost), now, None));
    assert!(!should_reapply_on_carrier_loss(false, None, now, None));
    assert!(!should_reapply_on_carrier_loss(false, Some(now), now, None));
    assert!(should_reapply_on_carrier_loss(false, Some(lost), now, None));
    assert!(!should_reapply_on_carrier_loss(false, Some(lost), now, Some(now + 5_000)));
    let past = now - 1_000;
    assert!(should_reapply_on_carrier_loss(false, Some(lost), now, Some(past)));
}

#[test]
fn carrier_watch_ticks() {
    let mut w = CarrierWatch { lost_since: None, next_allowed: None };
    assert!(!carrier_check(&mut w, false, false, false, 1_000, 15));
    assert_eq!(w.lost_since, Some(1_000));
    assert!(!carrier_check(&mut w, false, false, false, 5_000, 15));
    assert!(!carrier_check(&mut w, false, false, false, 15_999, 15));
    assert!(carrier_check(&mut w, false, false, false, 16_000, 15));
    assert_eq!(w.lost_since, None);
    carrier_reapplied(&mut w, 16_500);
    assert_eq!(w.next_allowed, Some(46_500));
    assert!(!carrier_check(&mut w, false, false, false, 17_000, 15));
    assert!(!carrier_check(&mut w, false, false, false, 40_000, 15));
    assert!(carrier_check(&mut w, false, false, false, 46_500, 15));
    let mut p = CarrierWatch { lost_since: Some(3), next_allowed: None };
    assert!(!carrier_check(&mut p, true, false, false, 99_999, 15));
    assert_eq!(p.lost_since, None);
    let mut up = CarrierWatch { lost_since: Some(3), next_allowed: None };
    assert!(!carrier_check(&mut up, false, false, true, 99_999, 15));
    assert_eq!(up.lost_since, None);
}

#[test]
fn carrier_wait_follows_link_retry() {
    let mut w = CarrierWatch { lost_since: Some(0), next_allowed: None };
    assert!(!carrier_check(&mut w, false, false, false, 12_000, 15));
    assert!(carrier_check(&mut w, false, false, false, 12_000, 12));
    let mut huge = CarrierWatch { lost_since: Some(0), next_allowed: None };
    assert!(!carrier_check(&mut huge, false, false, false, u64::MAX, u64::MAX));
}

#[test]
fn epoch_and_policies() {
    let mut e: u64 = 1;
    bump_epoch(&mut e);
    assert_eq!(e, 2);
    let mut m = u64::MAX;
    bump_epoch(&mut m);
    assert_eq!(m, 0);
    assert_eq!(reload_policy(Mode::Gateway), ProbePolicy::SkipDhcpWhileGateway);
    assert_eq!(reload_policy(Mode::Client), ProbePolicy::Full);
    let mut cfg = Config::default();
    assert!(!iface_is_pinned(&cfg));
    cfg.interface = Some("auto".to_string());
    assert!(!iface_is_pinned(&cfg));
    cfg.interface = Some("eth1".to_string());
    assert!(iface_is_pinned(&cfg));
}

#[test]
fn gateway_recheck_schedule() {
    let mut next: u64 = 15_000;
    assert!(!gateway_recheck_due(14_999, &mut next, false, Mode::Gateway, false));
    assert!(!gateway_recheck_due(15_000, &mut next, true, Mode::Gateway, false));
    assert!(!gateway_recheck_due(15_000, &mut next, false, Mode::Client, false));
    assert!(!gateway_recheck_due(15_000, &mut next, false, Mode::Gateway, true));
    assert_eq!(next, 15_000);
    assert!(gateway_recheck_due(16_000, &mut next, false, Mode::Gateway, false));
    assert_eq!(next, 31_000);
}

#[test]
fn refresh_reports_new_client_lease() {
    let mut st = Status::empty();
    st.mode = Mode::Client;
    st.iface = "eth0".to_string();
    assert!(refresh_status(&mut st, Some("192.168.0.50/24".to_string()), false));
    assert_eq!(st.cidr.as_deref(), Some("192.168.0.50/24"));
    assert!(!refresh_status(&mut st, Some("192.168.0.51/24".to_string()), true));
    assert!(st.dnsmasq_running);
}

#[test]
fn resolve_paths() {
    assert_eq!(resolve_socket(None, "/data"), "/data/run/micronet.sock");
    assert_eq!(resolve_socket(Some("/tmp/x.sock"), "/data"), "/tmp/x.sock");
    assert_eq!(resolve_socket(Some("run/y.sock"), "/data"), "/data/run/y.sock");
    assert_eq!(resolve_config(Some("etc/m.json"), "/data"), "/data/etc/m.json");
    assert_eq!(resolve_config(Some("/etc/m.json"), "/data"), "/etc/m.json");
}

#[test]
fn legacy_command_lines() {
    let a = parse_alias_args(&vec![]).unwrap();
    assert_eq!(a.command, AliasCommand::Apply);
    let a = parse_alias_args(&vec!["--data-dir".to_string(), "/x".to_string(), "check".to_string()]).unwrap();
    assert_eq!(a.command, AliasCommand::Check);
    assert_eq!(a.data_dir.as_deref(), Some("/x"));
    let a = parse_alias_args(&vec!["serve".to_string(), "up".to_string()]).unwrap();
    assert_eq!(a.command, AliasCommand::Apply);
    assert_eq!(
        parse_alias_args(&vec!["--bogus".to_string()]).unwrap_err(),
        AliasError::UnknownOption("--bogus".to_string())
    );
    assert_eq!(
        parse_alias_args(&vec!["frobnicate".to_string()]).unwrap_err(),
        AliasError::UnknownCommand("frobnicate".to_string())
    );
}

#[test]
fn invalid_reload_keeps_previous_config() {
    let prev = Config::default();
    let bad = Config { link_retry_secs: 0, ..Config::default() };
    let (kept, policy) = config_reload(prev.clone(), Ok(bad), Mode::Gateway);
    assert_eq!(kept, prev);
    assert_eq!(policy, None);
    let (kept, policy) = config_reload(prev.clone(), Err(micronet::Error::Json("x".into())), Mode::Client);
    assert_eq!(kept, prev);
    assert_eq!(policy, None);
    let good = Config { probe_timeout_secs: 9, ..Config::default() };
    let (next, policy) = config_reload(prev.clone(), Ok(good.clone()), Mode::Gateway);
    assert_eq!(next, good);
    assert_eq!(policy, Some(ProbePolicy::SkipDhcpWhileGateway));
    let (_, policy) = config_reload(prev, Ok(good), Mode::Static);
    assert_eq!(policy, Some(ProbePolicy::Full));
}

#[test]
fn daemon_events_start_epochs() {
    let mut e: u64 = 4;
    assert_eq!(on_event(&mut e, DaemonEvent::Reconfigure), Some(ProbePolicy::Full));
    assert_eq!(e, 5);
    assert_eq!(on_event(&mut e, DaemonEvent::Recheck(Recheck::Foreign(4))), None);
    assert_eq!(e, 5);
    assert_eq!(on_event(&mut e, DaemonEvent::Recheck(Recheck::Empty(5))), None);
    assert_eq!(on_event(&mut e, DaemonEvent::Recheck(Recheck::Foreign(5))), Some(ProbePolicy::BecomeClient));
    assert_eq!(e, 6);
    assert_eq!(on_event(&mut e, DaemonEvent::CarrierLost), Some(ProbePolicy::Full));
    assert_eq!(e, 7);
    let mut top = u64::MAX;
    assert_eq!(on_event(&mut top, DaemonEvent::Reconfigure), Some(ProbePolicy::Full));
    assert_eq!(top, 0);
}

#[test]
fn config_change_always_starts_an_epoch() {
    let mut e: u64 = 1;
    let prev = Config::default();
    let bad = Config { link_retry_secs: 0, ..Config::default() };
    let (kept, p) = on_config_change(&mut e, prev.clone(), Ok(bad), Mode::Client);
    assert_eq!(kept, prev);
    assert_eq!(p, None);
    assert_eq!(e, 2);
    let good = Config { link_retry_secs: 30, ..Config::default() };
    let (next, p) = on_config_change(&mut e, prev, Ok(good.clone()), Mode::Gateway);
    assert_eq!(next, good);
    assert_eq!(p, Some(ProbePolicy::SkipDhcpWhileGateway));
    assert_eq!(e, 3);
}
