use micronet::gate::dnsmasq::{
    dnsmasq_pids, dnsmasq_running, first_ethernet_iface, iface_has_ipv4, proc_entry_pid,
    start_dnsmasq,
};
use micronet::gate::leases::{parse_arp, parse_leases, ArpEntry, LeaseEntry};
use micronet::gate::omada::{kind_from_hostname, OmadaStack};
use micronet::gate::run::{
    render_base_conf, render_reservations,
    check_code, dedupe_by_mac, describe_device, dnsmasq_step, gate_on, reservation_additions,
    reservations, up_iface, up_reason, DnsmasqStep, Paths,
};
use micronet::gate::stack::{detect_any, ipv4, Detection, Device, DeviceKind, MacAddr, Registry, Stack};
use micronet::gate::sticky::StickyState;
use micronet::net::addr::Ipv4Addr;
use micronet::Error;

fn ap(mac: [u8; 6]) -> Device {
    Device {
        stack: String::new(),
        kind: DeviceKind::AccessPoint,
        mac: Some(MacAddr::new(mac)),
        ip: None,
        hostname: String::new(),
    }
}

#[test]
fn match_oui() {
    let s = OmadaStack::new();
    let mac = MacAddr::new([0x50, 0xc7, 0xbf, 1, 2, 3]);
    assert_eq!(s.match_device("", &mac), Some(DeviceKind::AccessPoint));
    assert_eq!(
        s.match_device("OC200-Office", &MacAddr::new([0xaa, 0xbb, 0xcc, 0, 0, 1])),
        Some(DeviceKind::Controller)
    );
    assert_eq!(
        s.match_device("phone", &MacAddr::new([0xaa, 0xbb, 0xcc, 0, 0, 1])),
        None
    );
}

#[test]
fn detect_from_arp_file() {
    let text = "IP address       HW type     Flags       HW address            Mask     Device\n\
10.0.10.11       0x1         0x2         50:c7:bf:11:22:33     *        eth0\n\
10.0.10.50       0x1         0x2         aa:bb:cc:11:22:33     *        eth0\n";
    let s = OmadaStack::with_arp_path("/tmp/arp");
    let devs = s.detect(text, None);
    assert_eq!(devs.len(), 1);
    assert_eq!(
        devs[0].mac.as_ref().map(|m| m.to_string()).as_deref(),
        Some("50:c7:bf:11:22:33")
    );
}

#[test]
fn parse_lease_line() {
    let text = "1700000000 50:c7:bf:01:02:03 10.0.10.11 EAP613-Lobby 01:50:c7:bf:01:02:03\n";
    let leases = parse_leases(text);
    assert_eq!(leases.len(), 1);
    assert_eq!(leases[0].hostname, "EAP613-Lobby");
    assert_eq!(leases[0].ip.to_string(), "10.0.10.11");
}

#[test]
fn registry_detect_any() {
    let results = vec![
        Detection { name: "empty".to_string(), found: Ok(vec![]) },
        Detection { name: "omada".to_string(), found: Ok(vec![ap([0x50, 0xc7, 0xbf, 1, 2, 3])]) },
    ];
    let (devs, ok) = detect_any(results).expect("ok");
    assert!(ok);
    assert_eq!(devs.len(), 1);
    assert_eq!(devs[0].stack, "omada");
}

#[test]
fn registry_detect_empty() {
    let results = vec![Detection { name: "empty".to_string(), found: Ok(vec![]) }];
    let (_, ok) = detect_any(results).expect("ok");
    assert!(!ok);
}

#[test]
fn detect_any_reports_last_error_when_nothing_found() {
    let results = vec![
        Detection { name: "a".to_string(), found: Err(Error::Other("first".to_string())) },
        Detection { name: "b".to_string(), found: Ok(vec![]) },
        Detection { name: "c".to_string(), found: Err(Error::Other("last".to_string())) },
    ];
    assert_eq!(detect_any(results).unwrap_err(), Error::Other("last".to_string()));
}

#[test]
fn detect_any_ignores_errors_when_something_found() {
    let mut named = ap([1, 2, 3, 4, 5, 6]);
    named.stack = "other".to_string();
    let results = vec![
        Detection { name: "a".to_string(), found: Err(Error::Other("x".to_string())) },
        Detection { name: "b".to_string(), found: Ok(vec![named, ap([7, 8, 9, 10, 11, 12])]) },
    ];
    let (devs, ok) = detect_any(results).expect("ok");
    assert!(ok);
    assert_eq!(devs[0].stack, "other");
    assert_eq!(devs[1].stack, "b");
}

#[test]
fn mac_parse_display() {
    let m = MacAddr::parse("50:C7:BF:01:02:03").expect("parse");
    assert_eq!(m.to_string(), "50:c7:bf:01:02:03");
}

#[test]
fn mac_parse_dashes_and_errors() {
    let m = MacAddr::parse("aa-bb-cc-dd-ee-0f").expect("parse");
    assert_eq!(m.octets(), [0xaa, 0xbb, 0xcc, 0xdd, 0xee, 0x0f]);
    assert!(MacAddr::parse("aabbccddeeff").is_none());
    assert!(MacAddr::parse("aa:bb:cc:dd:ee").is_none());
    assert!(MacAddr::parse("aa:bb:cc:dd:ee:fg").is_none());
    assert!(MacAddr::parse("aa:bb:cc:dd:ee:100").is_none());
    let m = MacAddr::parse("+a:b:c:d:e:f").expect("plus sign is accepted by from_str_radix");
    assert_eq!(m.octets(), [0x0a, 0x0b, 0x0c, 0x0d, 0x0e, 0x0f]);
}

#[test]
fn mac_text_reads_back() {
    let m = MacAddr::new([0x00, 0x31, 0x92, 0xab, 0x0c, 0xff]);
    let back = MacAddr::parse(&m.to_string()).expect("parse");
    assert_eq!(back.octets(), m.octets());
    assert!(MacAddr::new([0; 6]).is_zero());
    assert!(!m.is_zero());
}

#[test]
fn hostname_kinds() {
    assert_eq!(kind_from_hostname("my-OC300"), Some(DeviceKind::Controller));
    assert_eq!(kind_from_hostname("Omada-Controller"), Some(DeviceKind::Controller));
    assert_eq!(kind_from_hostname("EAP245"), Some(DeviceKind::AccessPoint));
    assert_eq!(kind_from_hostname("omada-ap"), Some(DeviceKind::AccessPoint));
    assert_eq!(kind_from_hostname("laptop"), None);
    let s = OmadaStack::new();
    assert_eq!(
        s.match_device("oc200", &MacAddr::new([0x50, 0xc7, 0xbf, 0, 0, 1])),
        Some(DeviceKind::Controller)
    );
    assert_eq!(s.name(), "omada");
    assert_eq!(s.arp_path(), "/proc/net/arp");
}

#[test]
fn detect_merges_replies_without_repeats() {
    let text = "header\n10.0.10.11 0x1 0x2 50:c7:bf:11:22:33 * eth0\n";
    let s = OmadaStack::new();
    let mut same = ap([0x50, 0xc7, 0xbf, 0x11, 0x22, 0x33]);
    same.kind = DeviceKind::Unknown;
    let replies = vec![
        same,
        Device {
            stack: "omada".to_string(),
            kind: DeviceKind::Unknown,
            mac: None,
            ip: Some(Ipv4Addr::new(10, 0, 10, 7)),
            hostname: String::new(),
        },
    ];
    let devs = s.detect(text, Some(replies));
    assert_eq!(devs.len(), 2);
    assert_eq!(devs[0].kind, DeviceKind::AccessPoint);
    assert_eq!(devs[0].ip, Some(Ipv4Addr::new(10, 0, 10, 11)));
    assert!(devs[1].mac.is_none());
}

#[test]
fn arp_entries_skip_header_bad_and_zero() {
    let text = "IP address HW type Flags HW address Mask Device\n\
10.0.10.11 0x1 0x2 50:c7:bf:11:22:33 * eth0\n\
10.0.10.12 0x1 0x0 00:00:00:00:00:00 * eth0\n\
bogus 0x1 0x2 50:c7:bf:11:22:34 * eth0\n\
short line\n";
    let arp = parse_arp(text);
    assert_eq!(arp.len(), 1);
    assert_eq!(arp[0].ip, Ipv4Addr::new(10, 0, 10, 11));
    assert!(parse_arp("").is_empty());
}

#[test]
fn leases_star_hostname_and_bad_lines() {
    let text = "1 50:c7:bf:01:02:03 10.0.10.11 * *\r\n\n2 xx 10.0.10.12 host *\n3 50:c7:bf:01:02:04 10.0.10.13\n";
    let leases = parse_leases(text);
    assert_eq!(leases.len(), 1);
    assert_eq!(leases[0].hostname, "");
}

#[test]
fn sticky_state_is_a_sorted_set() {
    let mut s = StickyState::new();
    assert!(!s.has_any());
    s.remember("omada");
    s.remember("unifi");
    s.remember("aruba");
    s.remember("omada");
    assert!(s.has_any());
    assert_eq!(s.stacks(), vec!["aruba".to_string(), "omada".to_string(), "unifi".to_string()]);
    assert!(s.contains("omada"));
    assert!(!s.contains("ruckus"));
    let t = StickyState::from_names(&vec!["unifi".to_string(), "omada".to_string(), "aruba".to_string(), "unifi".to_string()]);
    assert_eq!(t.stacks(), s.stacks());
    assert_eq!(StickyState::path_default(), "/data/etc/configure-dhcp.state");
}

#[test]
fn remember_order_does_not_matter() {
    let mut a = StickyState::default();
    a.remember("omada");
    a.remember("unifi");
    let mut b = StickyState::default();
    b.remember("unifi");
    b.remember("omada");
    assert_eq!(a.stacks(), b.stacks());
}

#[test]
fn roundtrip() {
    let mut s = StickyState::default();
    s.remember("omada");
    let text = serde_json::to_string(&s.stacks()).unwrap();
    let names: Vec<String> = serde_json::from_str(&text).unwrap();
    let loaded = StickyState::from_names(&names);
    assert!(loaded.contains("omada"));
}

#[test]
fn gate_and_reason() {
    let empty = StickyState::default();
    assert!(!gate_on(false, &empty));
    assert!(gate_on(true, &empty));
    let mut s = StickyState::default();
    s.remember("omada");
    assert!(gate_on(false, &s));
    assert_eq!(up_reason(true, &s), "stack detected");
    assert_eq!(up_reason(false, &s), "sticky stacks: {\"omada\"}");
    s.remember("unifi");
    assert_eq!(up_reason(false, &s), "sticky stacks: {\"omada\", \"unifi\"}");
    assert_eq!(up_iface("", Some("eth1".to_string())), "eth1");
    assert_eq!(up_iface("", None), "eth0");
    assert_eq!(up_iface("end0", Some("eth1".to_string())), "end0");
}

#[test]
fn dnsmasq_steps_and_check_code() {
    assert_eq!(dnsmasq_step(false, true), DnsmasqStep::Start);
    assert_eq!(dnsmasq_step(true, true), DnsmasqStep::Reload);
    assert_eq!(dnsmasq_step(true, false), DnsmasqStep::Keep);
    assert_eq!(check_code(true, false), 1);
    assert_eq!(check_code(true, true), 0);
    assert_eq!(check_code(false, false), 0);
}

#[test]
fn dedupe_last_ip_wins_in_mac_order() {
    let a = MacAddr::new([0x50, 0xc7, 0xbf, 0, 0, 2]);
    let b = MacAddr::new([0x14, 0xeb, 0xb6, 0, 0, 1]);
    let adds = vec![
        (a, "10.0.10.11".to_string()),
        (b, "10.0.10.12".to_string()),
        (a, "10.0.10.13".to_string()),
    ];
    let out = dedupe_by_mac(&adds);
    assert_eq!(out.len(), 2);
    assert_eq!(out[0].0.octets(), b.octets());
    assert_eq!(out[0].1, "10.0.10.12");
    assert_eq!(out[1].0.octets(), a.octets());
    assert_eq!(out[1].1, "10.0.10.13");
    let again = dedupe_by_mac(&out);
    assert_eq!(again.len(), 2);
    assert_eq!(again[1].1, "10.0.10.13");
}

#[test]
fn reservations_from_detected_leases_and_arp() {
    let m1 = MacAddr::new([0x50, 0xc7, 0xbf, 1, 2, 3]);
    let m2 = MacAddr::new([0x50, 0xc7, 0xbf, 1, 2, 4]);
    let mut d = ap(m1.octets());
    d.ip = Some(Ipv4Addr::new(10, 0, 10, 11));
    let no_ip = ap(m2.octets());
    let leases = vec![
        LeaseEntry { mac: m2, ip: Ipv4Addr::new(10, 0, 10, 12), hostname: "EAP".to_string() },
        LeaseEntry { mac: MacAddr::new([9, 9, 9, 9, 9, 9]), ip: Ipv4Addr::new(10, 0, 10, 99), hostname: "phone".to_string() },
    ];
    let arp = vec![ArpEntry { ip: Ipv4Addr::new(10, 0, 10, 21), mac: m1 }];
    let adds = reservation_additions(&vec![d.clone(), no_ip.clone()], &leases, &vec![true, false], &arp, &vec![true]);
    assert_eq!(adds.len(), 3);
    assert_eq!(adds[0].1, "10.0.10.11");
    assert_eq!(adds[1].1, "10.0.10.12");
    assert_eq!(adds[2].1, "10.0.10.21");
    let res = reservations(&vec![d, no_ip], &leases, &vec![true, false], &arp, &vec![true]);
    assert_eq!(res.len(), 2);
    assert_eq!(res[0].1, "10.0.10.21");
    assert_eq!(res[1].1, "10.0.10.12");
}

#[test]
fn device_line_shows_dashes() {
    let mut d = ap([0x50, 0xc7, 0xbf, 1, 2, 3]);
    d.stack = "omada".to_string();
    assert_eq!(describe_device(&d), "  [omada] ap mac=50:c7:bf:01:02:03 ip=- host=-");
    d.ip = Some(Ipv4Addr::new(10, 0, 10, 11));
    d.hostname = "EAP613".to_string();
    d.mac = None;
    assert_eq!(describe_device(&d), "  [omada] ap mac=- ip=10.0.10.11 host=EAP613");
    assert_eq!(DeviceKind::Controller.to_string(), "controller");
    assert_eq!(DeviceKind::Unknown.to_string(), "unknown");
}

#[test]
fn dnsmasq_processes() {
    let entries = vec![
        ("1".to_string(), "/sbin/init\0".to_string()),
        ("42".to_string(), "/usr/sbin/dnsmasq\0-C\0/data/etc/dnsmasq.conf\0".to_string()),
        ("43".to_string(), "dnsmasq\0-k\0".to_string()),
        ("self".to_string(), "/usr/sbin/dnsmasq\0".to_string()),
        ("".to_string(), "/usr/sbin/dnsmasq\0".to_string()),
    ];
    assert_eq!(dnsmasq_pids(&entries), vec![42, 43]);
    assert!(dnsmasq_running(&entries));
    assert!(!dnsmasq_running(&vec![("7".to_string(), "/bin/sh\0".to_string())]));
    assert_eq!(proc_entry_pid("99999999999", "dnsmasq"), None);
}

#[test]
fn start_dnsmasq_decisions() {
    match start_dnsmasq(false, false, "/data/etc/dnsmasq.conf") {
        Err(Error::DnsmasqMissing(p)) => assert_eq!(p, "/usr/sbin/dnsmasq"),
        other => panic!("unexpected {other:?}"),
    }
    assert_eq!(start_dnsmasq(true, true, "x").unwrap(), None);
    assert_eq!(
        start_dnsmasq(true, false, "/data/etc/dnsmasq.conf").unwrap(),
        Some(vec!["-C".to_string(), "/data/etc/dnsmasq.conf".to_string()])
    );
}

#[test]
fn first_ethernet_skips_lo_and_wireless() {
    let entries = vec![
        ("wlan0".to_string(), true),
        ("lo".to_string(), false),
        ("eth1".to_string(), false),
        ("end0".to_string(), false),
    ];
    assert_eq!(first_ethernet_iface(&entries).unwrap(), "end0");
    assert_eq!(
        first_ethernet_iface(&vec![("lo".to_string(), false)]).unwrap_err(),
        Error::NoEthernet
    );
    assert!(iface_has_ipv4("2: eth0    inet 10.0.10.1/24 brd 10.0.10.255"));
    assert!(!iface_has_ipv4("2: eth0    inet6 fe80::1/64"));
}

#[test]
fn default_paths() {
    let p = Paths::default();
    assert_eq!(p.state, "/data/etc/configure-dhcp.state");
    assert_eq!(p.ethernet_conf, "/data/etc/configure-ethernet.conf");
    assert_eq!(p.arp, "/proc/net/arp");
}

#[test]
fn reservations_file_lines() {
    let m1 = MacAddr::parse("AA:bb:cc:00:11:22").unwrap();
    let m2 = MacAddr::new([0x50, 0x91, 0xe3, 0, 0, 1]);
    let res = vec![(m1, "10.0.10.60".to_string()), (m2, "10.0.10.61".to_string())];
    assert_eq!(
        render_reservations(&res),
        "dhcp-host=aa:bb:cc:00:11:22,10.0.10.60\ndhcp-host=50:91:e3:00:00:01,10.0.10.61\n"
    );
    assert_eq!(render_reservations(&Vec::new()), "");
}

#[test]
fn base_conf_lines() {
    assert_eq!(
        render_base_conf("eth0", "/data/etc/dnsmasq.leases", "/data/etc/res.conf"),
        "interface=eth0\nbind-interfaces\ndhcp-range=10.0.10.50,10.0.10.200,7d\n\
dhcp-leasefile=/data/etc/dnsmasq.leases\nconf-file=/data/etc/res.conf\n"
    );
}

#[test]
fn ipv4_builds_dotted_address() {
    let ip = ipv4(10, 0, 10, 7);
    assert_eq!(ip, Ipv4Addr::new(10, 0, 10, 7));
    assert_eq!(ip.to_string(), "10.0.10.7");
}

#[test]
fn mac_dashed_text_reads_back() {
    let m = MacAddr::new([0x50, 0x91, 0xe3, 0x0a, 0x00, 0xff]);
    let dashed = m.to_string().replace(':', "-");
    assert_eq!(dashed, "50-91-e3-0a-00-ff");
    assert!(MacAddr::parse(&dashed).unwrap().same(&m));
}

struct FakeStack {
    name: &'static str,
    devices: Vec<Device>,
    fail: bool,
}

impl Stack for FakeStack {
    fn name(&self) -> String {
        self.name.to_string()
    }
    fn detect(&self, _iface: &str) -> Result<Vec<Device>, Error> {
        if self.fail {
            Err(Error::Other(format!("{} down", self.name)))
        } else {
            Ok(self.devices.clone())
        }
    }
    fn match_device(&self, hostname: &str, _mac: &MacAddr) -> Option<DeviceKind> {
        if hostname.starts_with(self.name) {
            Some(DeviceKind::AccessPoint)
        } else {
            None
        }
    }
}

#[test]
fn registry_detects_in_order_and_matches_first() {
    let mut r = Registry::new();
    assert_eq!(r.len(), 0);
    r.register(Box::new(FakeStack { name: "a", devices: vec![], fail: true }));
    assert!(r.detect_any("eth0").is_err());
    let dev = Device {
        stack: String::new(),
        kind: DeviceKind::Controller,
        mac: None,
        ip: Some(ipv4(10, 0, 10, 5)),
        hostname: "oc200".to_string(),
    };
    r.register(Box::new(FakeStack { name: "b", devices: vec![dev], fail: false }));
    assert_eq!(r.len(), 2);
    assert_eq!(r.stacks().len(), 2);
    let (found, any) = r.detect_any("eth0").unwrap();
    assert!(any);
    assert_eq!(found.len(), 1);
    assert_eq!(found[0].stack, "b");
    let m = MacAddr::new([0; 6]);
    assert_eq!(r.match_device("b-ap", &m), Some(("b".to_string(), DeviceKind::AccessPoint)));
    assert_eq!(r.match_device("zz", &m), None);
}
