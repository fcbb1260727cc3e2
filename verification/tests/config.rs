use micronet::config::watch::is_relevant_path;
use micronet::config::{
    default_config_path, default_dnsmasq_conf_path, default_dnsmasq_leasefile,
    default_dnsmasq_pidfile, default_socket_path, dhclient_leasefile, dhclient_pidfile,
    normalize_dns_name, parse_sticky, Config, DnsRecord,
};
use micronet::constants::MAX_DNS_RECORDS;
use micronet::net::addr::Ipv4Addr;
use micronet::Error;

#[test]
fn defaults_validate() {
    Config::default().validate().unwrap();
}

#[test]
fn interface_path_rejected() {
    let c = Config { interface: Some("eth0/evil".into()), ..Config::default() };
    assert!(c.validate().is_err());
}

#[test]
fn interface_auto_validates() {
    let c = Config { interface: Some("auto".into()), ..Config::default() };
    c.validate().unwrap();
}

#[test]
fn link_retry_zero_rejected() {
    let c = Config { link_retry_secs: 0, ..Config::default() };
    assert!(c.validate().is_err());
}

#[test]
fn sticky_parses() {
    assert_eq!(parse_sticky("7d").unwrap(), 7 * 86_400);
    assert_eq!(parse_sticky("72h").unwrap(), 72 * 3600);
    assert_eq!(parse_sticky("3600").unwrap(), 3600);
    assert!(parse_sticky("0").is_err());
    assert!(parse_sticky("nope").is_err());
}

#[test]
fn static_host_in_pool_rejected() {
    let mut c = Config::default();
    c.gateway.static_host = 100;
    assert!(c.validate().is_err());
}

#[test]
fn dns_bad_hostname_rejected() {
    let mut c = Config::default();
    c.dns.enabled = true;
    c.dns.records = vec![DnsRecord { name: "not a host".into(), addr: None }];
    assert!(c.validate().is_err());
}

#[test]
fn dns_duplicate_name_rejected() {
    let mut c = Config::default();
    c.dns.records = vec![
        DnsRecord { name: "wizard.lan".into(), addr: None },
        DnsRecord { name: "Wizard.lan.".into(), addr: None },
    ];
    assert!(c.validate().is_err());
}

#[test]
fn dns_too_many_records_rejected() {
    let mut c = Config::default();
    c.dns.records = (0..=MAX_DNS_RECORDS)
        .map(|i| DnsRecord { name: format!("h{i}"), addr: None })
        .collect();
    assert!(c.validate().is_err());
}

#[test]
fn dns_names_normalize() {
    assert_eq!(normalize_dns_name("BigFred.lan").unwrap(), "bigfred.lan");
    assert_eq!(normalize_dns_name("Wizard.lan.").unwrap(), "wizard.lan");
    assert!(normalize_dns_name("").is_err());
    assert!(normalize_dns_name("-bad.lan").is_err());
    assert!(normalize_dns_name("a..b").is_err());
}

#[test]
fn record_ip_and_addresses() {
    let mut c = Config::default();
    c.dns.records = vec![
        DnsRecord { name: "bigfred.lan".into(), addr: None },
        DnsRecord { name: "wizard".into(), addr: Some(Ipv4Addr::new(10, 0, 10, 1)) },
    ];
    c.validate().unwrap();
    assert_eq!(c.dns_record_ip(&c.dns.records[0]), c.gateway.ip);
    assert_eq!(c.dns_record_ip(&c.dns.records[1]), Ipv4Addr::new(10, 0, 10, 1));
    assert_eq!(c.static_addr(), Ipv4Addr::new(192, 168, 0, 252));
    assert_eq!(c.range_start_addr(), Ipv4Addr::new(192, 168, 0, 50));
    assert_eq!(c.range_end_addr(), Ipv4Addr::new(192, 168, 0, 200));
    assert_eq!(c.gateway_cidr(), "192.168.0.1/24");
    assert_eq!(c.static_cidr(), "192.168.0.252/24");
}

#[test]
fn validation_messages() {
    let c = Config { probe_timeout_secs: 0, ..Config::default() };
    assert!(matches!(c.validate(), Err(Error::Config(_))));
    let mut c = Config::default();
    c.dhcp.range_start = 201;
    assert!(c.validate().is_err());
    let mut c = Config::default();
    c.dhcp.sticky = "0h".into();
    assert!(c.validate().is_err());
}

#[test]
fn default_paths_under_root() {
    assert_eq!(default_config_path("/data"), "/data/etc/micronet.json");
    assert_eq!(default_socket_path("/data"), "/data/run/micronet.sock");
    assert_eq!(default_dnsmasq_conf_path("/data"), "/data/etc/dnsmasq.conf");
    assert_eq!(default_dnsmasq_leasefile("/data"), "/data/etc/dnsmasq.leases");
    assert_eq!(default_dnsmasq_pidfile("/data"), "/data/run/dnsmasq.pid");
    assert_eq!(dhclient_pidfile("/data", "eth0"), "/data/run/dhclient.eth0.pid");
    assert_eq!(dhclient_leasefile("/data", "eth0"), "/data/etc/dhclient.eth0.leases");
}

fn event_gateway() -> micronet::config::GatewayConfig {
    micronet::config::GatewayConfig {
        ip: Ipv4Addr::new(10, 0, 10, 1),
        subnet: micronet::net::addr::Ipv4Net::parse("10.0.10.0/24").unwrap(),
        static_host: 252,
    }
}

#[test]
fn json_camel_case() {
    let mut cfg = Config::default();
    cfg.gateway = event_gateway();
    cfg.dhcp.range_start = 50;
    cfg.dhcp.range_end = 200;
    cfg.dhcp.sticky = "7d".into();
    cfg.validate().unwrap();
    assert_eq!(cfg.gateway.ip, Ipv4Addr::new(10, 0, 10, 1));
    assert_eq!(cfg.static_addr(), Ipv4Addr::new(10, 0, 10, 252));
    assert!(!cfg.dns.enabled);
    assert!(cfg.dns.records.is_empty());
}

#[test]
fn dns_json_camel_case() {
    let mut cfg = Config::default();
    cfg.gateway = event_gateway();
    cfg.dns.enabled = true;
    cfg.dns.records = vec![
        DnsRecord { name: "BigFred.lan".into(), addr: None },
        DnsRecord { name: "wizard".into(), addr: Some(Ipv4Addr::new(10, 0, 10, 1)) },
    ];
    cfg.validate().unwrap();
    assert!(cfg.dns.enabled);
    assert_eq!(cfg.dns.records[0].name, "BigFred.lan");
    assert_eq!(cfg.dns_record_ip(&cfg.dns.records[0]), cfg.gateway.ip);
    assert_eq!(cfg.dns.records[1].addr, Some(Ipv4Addr::new(10, 0, 10, 1)));
    assert_eq!(normalize_dns_name("BigFred.lan").unwrap(), "bigfred.lan");
}

#[test]
fn relevant_filters() {
    assert!(is_relevant_path("/data/etc/micronet.json", "micronet.json"));
    assert!(!is_relevant_path("/data/etc/.micronet.json", "micronet.json"));
    assert!(!is_relevant_path("/data/etc/micronet.json~", "micronet.json"));
    assert!(!is_relevant_path("/data/etc/other.json", "micronet.json"));
}

#[test]
fn relevant_path_without_directory() {
    assert!(is_relevant_path("micronet.json", "micronet.json"));
    assert!(!is_relevant_path("/data/etc/", "micronet.json"));
}

#[test]
fn dns_name_errors_quote_the_name() {
    match normalize_dns_name(" a b.lan ") {
        Err(Error::Config(m)) => assert_eq!(m, "dns record name \"a b.lan\" has illegal characters"),
        other => panic!("unexpected {other:?}"),
    }
    match normalize_dns_name("x..lan") {
        Err(Error::Config(m)) => {
            assert_eq!(m, "dns record name \"x..lan\" has an empty or overlong label")
        }
        other => panic!("unexpected {other:?}"),
    }
    match normalize_dns_name("a_b.lan") {
        Err(Error::Config(m)) => assert_eq!(m, "dns record name \"a_b.lan\" is not a DNS hostname"),
        other => panic!("unexpected {other:?}"),
    }
}

#[test]
fn dns_names_normalize_once() {
    for name in [" BigFred.LAN. ", "Wizard.lan.", "a-1.B2", "x"] {
        let once = normalize_dns_name(name).unwrap();
        assert_eq!(normalize_dns_name(&once).unwrap(), once);
        assert_eq!(once, name.trim().trim_end_matches('.').to_ascii_lowercase());
    }
}
