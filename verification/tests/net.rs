use micronet::net::addr::parse_first_inet_cidr;
use micronet::net::link_state_up;
use micronet::net::addr::{host_in_slash24, Ipv4Addr, Ipv4Net};
use micronet::net::{
    cidr_has_addr, cidr_ip, ethtool_coalesce_args, ethtool_eee_args, ethtool_offload_args,
    is_physical_ethernet, list_physical_ethernet, other_ethernet, pick_auto, resolve_iface, LiveNet, SysfsEntry,
};
use micronet::Error;

fn names(v: &[&str]) -> Vec<String> {
    v.iter().map(|s| s.to_string()).collect()
}

fn entry(type_text: &str) -> SysfsEntry {
    SysfsEntry {
        is_dir: true,
        type_text: Some(type_text.to_string()),
        wireless: false,
        bridge: false,
        canonical: None,
        flags_text: None,
    }
}

#[test]
fn rejects_loopback_bridge_wifi_veth() {
    let mut lo = entry("772\n");
    lo.flags_text = Some("0x9\n".to_string());
    lo.canonical = Some("/sys/devices/virtual/net/lo".to_string());
    let mut br0 = entry("1\n");
    br0.bridge = true;
    br0.canonical = Some("/sys/devices/virtual/net/br0".to_string());
    let mut veth0 = entry("1\n");
    veth0.canonical = Some("/sys/devices/virtual/net/veth0".to_string());
    let mut wlan0 = entry("1\n");
    wlan0.wireless = true;
    let mut eth0 = entry("1\n");
    eth0.flags_text = Some("0x1003\n".to_string());
    assert!(!is_physical_ethernet("lo", &lo));
    assert!(!is_physical_ethernet("br0", &br0));
    assert!(!is_physical_ethernet("veth0", &veth0));
    assert!(!is_physical_ethernet("wlan0", &wlan0));
    assert!(is_physical_ethernet("eth0", &eth0));
    let all = vec![
        ("lo".to_string(), lo),
        ("br0".to_string(), br0),
        ("veth0".to_string(), veth0),
        ("wlan0".to_string(), wlan0),
        ("eth0".to_string(), eth0),
    ];
    let list = list_physical_ethernet(&all);
    assert_eq!(list, vec!["eth0".to_string()]);
}

#[test]
fn physical_list_is_sorted() {
    let all = vec![
        ("eth1".to_string(), entry("1\n")),
        ("lo".to_string(), entry("772\n")),
        ("enp3s0".to_string(), entry("1\n")),
        ("eth0".to_string(), entry("1\n")),
    ];
    assert_eq!(
        list_physical_ethernet(&all),
        vec!["enp3s0".to_string(), "eth0".to_string(), "eth1".to_string()]
    );
    assert!(list_physical_ethernet(&Vec::new()).is_empty());
}

#[test]
fn physical_filter_edges() {
    let mut looped = entry("1");
    looped.flags_text = Some("0x8".to_string());
    assert!(!is_physical_ethernet("eth9", &looped));
    assert!(!is_physical_ethernet("", &entry("1")));
    assert!(!is_physical_ethernet("a/b", &entry("1")));
    let mut not_dir = entry("1");
    not_dir.is_dir = false;
    assert!(!is_physical_ethernet("eth0", &not_dir));
    let mut no_type = entry("1");
    no_type.type_text = None;
    assert!(!is_physical_ethernet("eth0", &no_type));
}

#[test]
fn configured_non_ethernet_errors() {
    let err = resolve_iface(Some("lo"), &names(&[]), &vec![], false).unwrap_err();
    assert!(matches!(err, Error::NotEthernet(_)));
}

#[test]
fn auto_picks_carrier_not_first_sorted() {
    let n = names(&["eth0", "eth1"]);
    let c = vec![false, true];
    assert_eq!(resolve_iface(None, &n, &c, false).unwrap(), "eth1");
    assert_eq!(resolve_iface(Some("auto"), &n, &c, false).unwrap(), "eth1");
}

#[test]
fn auto_falls_back_to_first_sorted_when_no_carrier() {
    let n = names(&["eth0", "eth1"]);
    assert_eq!(resolve_iface(None, &n, &vec![false, false], false).unwrap(), "eth0");
}

#[test]
fn auto_single_iface_without_carrier() {
    assert_eq!(resolve_iface(None, &names(&["eth0"]), &vec![false], false).unwrap(), "eth0");
}

#[test]
fn explicit_name_ignores_carrier() {
    let n = names(&["eth0", "eth1"]);
    assert_eq!(resolve_iface(Some("eth1"), &n, &vec![true, true], true).unwrap(), "eth1");
}

#[test]
fn auto_no_ethernet_errors() {
    let err = resolve_iface(None, &names(&[]), &vec![], false).unwrap_err();
    assert!(matches!(err, Error::NoEthernet));
    assert!(matches!(pick_auto(&names(&[]), &vec![]), Err(Error::NoEthernet)));
}

#[test]
fn phy_tweak_args_disable_eee_and_tso_gso() {
    assert_eq!(ethtool_eee_args("eth0"), ["--set-eee", "eth0", "eee", "off"]);
    assert_eq!(ethtool_offload_args("end0"), ["-K", "end0", "tso", "off", "gso", "off"]);
    assert_eq!(ethtool_coalesce_args("eth0"), ["-C", "eth0", "rx-usecs", "0", "tx-usecs", "0"]);
}

#[test]
fn host_252() {
    let net: Ipv4Net = Ipv4Net::parse("10.0.10.0/24").unwrap();
    assert_eq!(host_in_slash24(net, 252).unwrap(), Ipv4Addr::new(10, 0, 10, 252));
}

#[test]
fn host_requires_slash24() {
    let net = Ipv4Net::parse("10.0.0.0/16").unwrap();
    assert!(matches!(host_in_slash24(net, 1), Err(Error::Config(_))));
    assert!(Ipv4Net::parse("10.0.0.0/33").is_none());
    assert!(Ipv4Net::parse("nope").is_none());
    let n = Ipv4Net::parse("192.168.7.9/24").unwrap();
    assert_eq!(n.network(), Ipv4Addr::new(192, 168, 7, 0));
    assert!(n.contains(&Ipv4Addr::new(192, 168, 7, 200)));
    assert!(!n.contains(&Ipv4Addr::new(192, 168, 8, 1)));
}

#[test]
fn cidr_helpers() {
    assert_eq!(cidr_ip("10.0.10.1/24"), Ipv4Addr::new(10, 0, 10, 1));
    assert_eq!(cidr_ip("garbage"), Ipv4Addr::new(0, 0, 0, 0));
    assert!(cidr_has_addr(Some("10.0.10.1/24"), Ipv4Addr::new(10, 0, 10, 1)));
    assert!(!cidr_has_addr(Some("10.0.10.12/24"), Ipv4Addr::new(10, 0, 10, 1)));
    assert!(!cidr_has_addr(None, Ipv4Addr::new(10, 0, 10, 1)));
    assert_eq!(Ipv4Addr::parse("010.0.0.1"), None);
    assert_eq!(Ipv4Addr::parse("10.0.0.1").unwrap().to_string(), "10.0.0.1");
}

#[test]
fn live_net_paths() {
    assert_eq!(LiveNet::new().sys_class_net, "/sys/class/net");
    assert_eq!(LiveNet::with_sys_class_net("/tmp/net").sys_class_net, "/tmp/net");
}

#[test]
fn first_inet_cidr_in_ip_output() {
    let out = "2: eth0    inet 192.168.0.1/24 brd 192.168.0.255 scope global eth0\\       valid_lft forever\n";
    assert_eq!(parse_first_inet_cidr(out).as_deref(), Some("192.168.0.1/24"));
    assert_eq!(parse_first_inet_cidr(""), None);
    assert_eq!(parse_first_inet_cidr("2: eth0 inet"), None);
    assert!(link_state_up("2: eth0: <UP> mtu 1500 state UP mode"));
    assert!(!link_state_up("2: eth0: <BROADCAST,UP> state DOWN"));
}

#[test]
fn other_ethernet_keeps_order_without_chosen() {
    assert_eq!(other_ethernet(&names(&["eth0", "eth1", "eth2"]), "eth1"), names(&["eth0", "eth2"]));
    assert_eq!(other_ethernet(&names(&["eth0"]), "eth0"), Vec::<String>::new());
    assert_eq!(other_ethernet(&names(&["eth0", "eth1"]), "wlan0"), names(&["eth0", "eth1"]));
}

#[test]
fn ipnet_grammar_edges() {
    let n = Ipv4Net::parse("010.0.0.001/08").unwrap();
    assert_eq!(n.network(), Ipv4Addr::new(10, 0, 0, 0));
    assert_eq!(n.prefix_len(), 8);
    assert!(Ipv4Net::parse("1.2.3.4/033").is_none());
    assert!(Ipv4Net::parse("1.2.3.4").is_none());
    assert!(Ipv4Net::parse("1.2.3.4/24/1").is_none());
    assert!(Ipv4Net::parse("1.2.3.256/8").is_none());
    assert!(Ipv4Net::parse("1.2.3.4/32").is_some());
    assert!(Ipv4Net::parse(" 1.2.3.4/24").is_none());
}
