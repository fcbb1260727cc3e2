use micronet::config::{Config, DnsConfig, DnsRecord};
use micronet::dhcp::render_conf;
use micronet::net::addr::Ipv4Addr;

#[test]
fn conf_for_default_config() {
    let c = Config::default();
    let body = render_conf(&c, "eth0", "/data/lib/dnsmasq.leases", "/data/run/dnsmasq.pid");
    assert_eq!(
        body,
        "interface=eth0\n\
bind-interfaces\n\
listen-address=192.168.0.1\n\
dhcp-range=192.168.0.50,192.168.0.200,7d\n\
dhcp-option=option:router,192.168.0.1\n\
dhcp-option=option:dns-server,192.168.0.1\n\
dhcp-leasefile=/data/lib/dnsmasq.leases\n\
pid-file=/data/run/dnsmasq.pid\n"
    );
}

#[test]
fn conf_host_records_only_when_enabled() {
    let records = vec![
        DnsRecord { name: " BigFred.LAN. ".into(), addr: None },
        DnsRecord { name: "ui.lan".into(), addr: Some(Ipv4Addr::new(192, 168, 0, 7)) },
    ];
    let mut c = Config::default();
    c.dns = DnsConfig { enabled: true, records: records.clone() };
    let body = render_conf(&c, "eth1", "l", "p");
    assert!(body.ends_with(
        "pid-file=p\nhost-record=bigfred.lan,192.168.0.1\nhost-record=ui.lan,192.168.0.7\n"
    ));
    c.dns = DnsConfig { enabled: false, records };
    assert!(!render_conf(&c, "eth1", "l", "p").contains("host-record"));
}
