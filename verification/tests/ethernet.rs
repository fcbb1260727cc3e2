use micronet::ethernet::{
    attempts, default_gateway, dhcp_outcome, first_ethernet_interface, gateway_for,
    iface_link_up, parse_config, render_config, static_cidr, Attempt, Settings,
    DEFAULT_PRIMARY, DEFAULT_SECONDARY,
};
use micronet::Error;

fn defaults() -> Settings {
    Settings { primary_addr: "192.168.0.120".into(), secondary_addr: "192.168.1.120".into() }
}

#[test]
fn parse_config_defaults() {
    let cfg = parse_config("", defaults());
    assert_eq!(cfg.primary_addr, defaults().primary_addr);
    assert_eq!(cfg.secondary_addr, defaults().secondary_addr);
}

#[test]
fn parse_config_overrides() {
    let text = "# club\nPRIMARY=10.0.0.50\nSECONDARY=10.0.1.50\n";
    let cfg = parse_config(text, defaults());
    assert_eq!(cfg.primary_addr, "10.0.0.50");
    assert_eq!(cfg.secondary_addr, "10.0.1.50");
}

#[test]
fn parse_config_ignores_invalid_ip() {
    let text = "PRIMARY=not-an-ip\nSECONDARY=192.168.1.99\n";
    let cfg = parse_config(text, defaults());
    assert_eq!(cfg.primary_addr, "192.168.0.120");
    assert_eq!(cfg.secondary_addr, "192.168.1.99");
}

#[test]
fn parse_config_keys_are_case_insensitive_and_trimmed() {
    let text = "  address = 10.1.1.1 \nfallback_address=10.2.2.2\nother=10.3.3.3\nSECONDARY=\nnoequals\n";
    let cfg = parse_config(text, defaults());
    assert_eq!(cfg.primary_addr, "10.1.1.1");
    assert_eq!(cfg.secondary_addr, "10.2.2.2");
}

#[test]
fn gateway_for_works() {
    assert_eq!(gateway_for("192.168.0.120"), "192.168.0.1");
    assert_eq!(gateway_for("10.20.30.40"), "10.20.30.1");
    assert_eq!(gateway_for("bad"), "");
}

#[test]
fn load_or_create_writes() {
    let cfg = Settings { primary_addr: DEFAULT_PRIMARY.into(), secondary_addr: DEFAULT_SECONDARY.into() };
    let body = render_config(&cfg);
    assert_eq!(cfg.primary_addr, "192.168.0.120");
    assert!(body.contains("PRIMARY=192.168.0.120"));
}

#[test]
fn load_reads_existing() {
    let cfg = parse_config("PRIMARY=172.16.0.8\nSECONDARY=172.16.1.8\n", defaults());
    assert_eq!(cfg.primary_addr, "172.16.0.8");
    assert_eq!(cfg.secondary_addr, "172.16.1.8");
}

#[test]
fn written_settings_read_back() {
    let cfg = Settings { primary_addr: "10.9.8.7".into(), secondary_addr: "10.6.5.4".into() };
    let back = parse_config(&render_config(&cfg), defaults());
    assert_eq!(back.primary_addr, "10.9.8.7");
    assert_eq!(back.secondary_addr, "10.6.5.4");
}

#[test]
fn command_outputs() {
    assert!(iface_link_up("2: eth0: <BROADCAST,MULTICAST,UP,LOWER_UP> mtu 1500 state UP"));
    assert!(iface_link_up("2: eth0: <BROADCAST,UP> mtu 1500 state DOWN"));
    assert!(!iface_link_up("2: eth0: <BROADCAST,MULTICAST> mtu 1500 state DOWN"));
    assert_eq!(
        default_gateway("default via 192.168.0.1 dev eth0 proto dhcp\n").as_deref(),
        Some("192.168.0.1")
    );
    assert_eq!(default_gateway("default dev eth0 scope link via\nx via 10.0.0.1\n").as_deref(), Some("10.0.0.1"));
    assert_eq!(default_gateway(""), None);
    assert_eq!(static_cidr("10.0.0.50"), "10.0.0.50/24");
}

#[test]
fn attempts_and_outcome() {
    let a = attempts(&defaults());
    assert_eq!(a.len(), 3);
    assert!(matches!(&a[0], Attempt::Static(s) if s == "192.168.0.120"));
    assert!(matches!(&a[1], Attempt::Static(s) if s == "192.168.1.120"));
    assert!(matches!(&a[2], Attempt::Dhcp));
    assert!(!dhcp_outcome(false, Some(true), true));
    assert!(dhcp_outcome(true, Some(true), false));
    assert!(dhcp_outcome(true, None, true));
    assert!(!dhcp_outcome(true, Some(false), false));
}

#[test]
fn first_interface() {
    let entries = vec![("wlan0".to_string(), true), ("eth0".to_string(), false)];
    assert_eq!(first_ethernet_interface(&entries).unwrap(), "eth0");
    assert_eq!(
        first_ethernet_interface(&vec![]).unwrap_err(),
        Error::Other("no Ethernet interface found".to_string())
    );
}
