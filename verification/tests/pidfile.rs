use micronet::constants::DNSMASQ_BIN;
use micronet::dhcp::{after_sighup, is_running, reload_or_restart, restart_required, ReloadStep};
use micronet::pidfile::{cmdline_matches, cmdline_path, is_alive, read_pid, stop};

#[test]
fn cmdline_matches_bin_path_and_argv0() {
    assert!(cmdline_matches(b"/usr/sbin/dnsmasq\0-C\0/tmp/x\0", "/usr/sbin/dnsmasq"));
    assert!(cmdline_matches(b"dnsmasq\0", "/usr/sbin/dnsmasq"));
    assert!(!cmdline_matches(b"/usr/sbin/unbound\0", "/usr/sbin/dnsmasq"));
    assert!(!cmdline_matches(b"", "/usr/sbin/dnsmasq"));
    assert!(cmdline_matches(b"/sbin/dhclient\0-nw\0eth0\0", "/sbin/dhclient"));
}

#[test]
fn missing_pidfile_is_dead_and_stop_ok() {
    let pid = None;
    assert!(!is_alive(pid, b"", "/usr/sbin/dnsmasq"));
    assert_eq!(stop(pid, false), None);
}

#[test]
fn garbage_pidfile_is_dead() {
    let pid = read_pid("nope\n");
    assert_eq!(pid, None);
    assert!(!is_alive(pid, b"", "dnsmasq"));
    assert_eq!(stop(pid, false), None);
}

#[test]
fn stale_numeric_pid_is_dead() {
    let pid = read_pid("999999\n");
    assert_eq!(pid, Some(999999));
    assert!(!is_alive(pid, b"", "dnsmasq"));
}

#[test]
fn stop_in_signals_matching_pid() {
    let pid = read_pid("1234\n");
    assert_eq!(cmdline_path("/tmp/proc", 1234), "/tmp/proc/1234/cmdline");
    let alive = is_alive(pid, b"/usr/sbin/dnsmasq\0-C\0x\0", "/usr/sbin/dnsmasq");
    assert!(alive);
    assert_eq!(stop(pid, alive), Some(1234));
}

#[test]
fn pid_text_edges() {
    assert_eq!(read_pid("0"), None);
    assert_eq!(read_pid("-5"), None);
    assert_eq!(read_pid("  +17 \n"), Some(17));
    assert_eq!(read_pid("2147483648"), None);
    assert_eq!(read_pid("2147483647"), Some(i32::MAX));
}

#[test]
fn argv0_forms() {
    assert!(cmdline_matches(b"-x\0/opt/bin/dnsmasq\0", "/usr/sbin/dnsmasq"));
    assert!(!cmdline_matches(b"\0\0", "/usr/sbin/dnsmasq"));
    assert!(!cmdline_matches(b"notdnsmasq\0", "/usr/sbin/dnsmasq"));
    assert!(cmdline_matches(b"/usr/sbin/dnsmasq", "/usr/sbin/dnsmasq"));
}

#[test]
fn restart_when_conf_differs() {
    assert!(restart_required("a", "b"));
    assert!(!restart_required("same", "same"));
}

#[test]
fn stop_on_missing_pidfile_is_ok() {
    assert_eq!(micronet::dhcp::stop(None, false), None);
    assert!(!is_running(None, b""));
    assert!(is_running(Some(5), b"/usr/sbin/dnsmasq\0"));
    assert_eq!(DNSMASQ_BIN, "/usr/sbin/dnsmasq");
}

#[test]
fn reload_steps() {
    assert_eq!(reload_or_restart(false, false), ReloadStep::Start);
    assert_eq!(reload_or_restart(true, true), ReloadStep::Restart);
    assert_eq!(reload_or_restart(true, false), ReloadStep::Sighup);
    assert_eq!(after_sighup(false, true), Some(ReloadStep::Restart));
    assert_eq!(after_sighup(true, false), Some(ReloadStep::Start));
    assert_eq!(after_sighup(true, true), None);
}

#[test]
fn dnsmasq_start_arguments() {
    use_start_args();
}

fn use_start_args() {
    assert_eq!(
        micronet::dhcp::start_args(false, false, "c", "p").unwrap_err(),
        micronet::Error::DnsmasqMissing("/usr/sbin/dnsmasq".to_string())
    );
    assert_eq!(micronet::dhcp::start_args(true, true, "c", "p").unwrap(), None);
    assert_eq!(
        micronet::dhcp::start_args(true, false, "/data/etc/dnsmasq.conf", "/data/run/dnsmasq.pid").unwrap(),
        Some(vec![
            "-C".to_string(),
            "/data/etc/dnsmasq.conf".to_string(),
            "-x".to_string(),
            "/data/run/dnsmasq.pid".to_string()
        ])
    );
}
