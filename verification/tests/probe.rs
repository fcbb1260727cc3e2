use dhcproto::v4::{DhcpOption, Encodable, Encoder, HType, Message, MessageType, Opcode};
use micronet::net::addr::Ipv4Addr;
use micronet::net::probe::{
    decode_matching_offer, encode_discover, foreign_offer, offer_identity, parse_mac, read_mac,
};
use micronet::Error;

const DHCP_MAGIC_COOKIE: [u8; 4] = [0x63, 0x82, 0x53, 0x63];

fn encode_offer(
    chaddr: &[u8; 6],
    xid: u32,
    server_id: Option<[u8; 4]>,
    opcode: Opcode,
    htype: HType,
    msg_type: MessageType,
) -> Vec<u8> {
    let mut msg = Message::default();
    msg.set_opcode(opcode);
    msg.set_htype(htype);
    msg.set_xid(xid);
    msg.set_chaddr(chaddr);
    msg.opts_mut().insert(DhcpOption::MessageType(msg_type));
    if let Some(id) = server_id {
        msg.opts_mut().insert(DhcpOption::ServerIdentifier(id.into()));
    }
    let mut buf = Vec::with_capacity(300);
    let mut enc = Encoder::new(&mut buf);
    msg.encode(&mut enc).unwrap();
    buf
}

#[test]
fn discover_has_cookie_and_type() {
    let mac = [0x02, 0x00, 0x00, 0x00, 0x00, 0x01];
    let buf = encode_discover(&mac, 0x1122_3344).unwrap();
    assert!(buf.windows(4).any(|w| w == DHCP_MAGIC_COOKIE));
    assert!(buf.windows(3).any(|w| w == [53, 1, 1]));
    assert!(decode_matching_offer(&buf, 0x1122_3344, &mac).is_none());
}

#[test]
fn discover_bytes_are_exact() {
    let mac = [0x02, 0x11, 0x22, 0x33, 0x44, 0x55];
    let buf = encode_discover(&mac, 0x1122_3344).unwrap();
    let mut want = vec![1u8, 1, 6, 0, 0x11, 0x22, 0x33, 0x44, 0, 0, 0x80, 0];
    want.extend_from_slice(&[0u8; 16]);
    want.extend_from_slice(&mac);
    want.extend_from_slice(&[0u8; 10 + 64 + 128]);
    want.extend_from_slice(&[99, 130, 83, 99, 53, 1, 1, 55, 3, 1, 3, 6, 255]);
    assert_eq!(buf, want);
}

#[test]
fn matching_offer_is_accepted() {
    let mac = [0x02, 0x00, 0x00, 0x00, 0x00, 0x01];
    let xid = 0xAABB_CCDD;
    let buf = encode_offer(
        &mac,
        xid,
        Some([8, 8, 8, 8]),
        Opcode::BootReply,
        HType::Eth,
        MessageType::Offer,
    );
    let view = decode_matching_offer(&buf, xid, &mac).unwrap();
    assert_eq!(view.server_id, Some(Ipv4Addr::new(8, 8, 8, 8)));
}

#[test]
fn wrong_xid_chaddr_opcode_htype_ack_rejected() {
    let mac = [0x02, 0x00, 0x00, 0x00, 0x00, 0x01];
    let other = [0x02, 0x00, 0x00, 0x00, 0x00, 0x02];
    let xid = 1u32;
    let good = || encode_offer(&mac, xid, None, Opcode::BootReply, HType::Eth, MessageType::Offer);
    assert!(decode_matching_offer(&good(), 2, &mac).is_none());
    assert!(decode_matching_offer(
        &encode_offer(&other, xid, None, Opcode::BootReply, HType::Eth, MessageType::Offer),
        xid,
        &mac
    )
    .is_none());
    assert!(decode_matching_offer(
        &encode_offer(&mac, xid, None, Opcode::BootRequest, HType::Eth, MessageType::Offer),
        xid,
        &mac
    )
    .is_none());
    assert!(decode_matching_offer(
        &encode_offer(&mac, xid, None, Opcode::BootReply, HType::Eth, MessageType::Ack),
        xid,
        &mac
    )
    .is_none());
    assert!(decode_matching_offer(&good(), xid, &mac).is_some());
}

#[test]
fn offer_identity_prefers_server_id() {
    let foreign = Ipv4Addr::new(8, 8, 8, 8);
    let unspecified = Ipv4Addr::new(0, 0, 0, 0);
    assert!(offer_identity(None, unspecified).is_none());
    assert_eq!(offer_identity(None, foreign), Some(foreign));
    assert_eq!(offer_identity(Some(foreign), unspecified), Some(foreign));
}

#[test]
fn truncated_buffer_is_none() {
    let mac = [0u8; 6];
    assert!(decode_matching_offer(&[0, 1, 2], 1, &mac).is_none());
}

#[test]
fn foreign_offer_skips_ignored_servers() {
    let mac = [0x02, 0, 0, 0, 0, 1];
    let ours = [192, 168, 0, 1];
    let buf = encode_offer(&mac, 7, Some(ours), Opcode::BootReply, HType::Eth, MessageType::Offer);
    let src = Ipv4Addr::new(192, 168, 0, 1);
    assert!(!foreign_offer(&buf, 7, &mac, src, &[Ipv4Addr::new(192, 168, 0, 1)]));
    assert!(foreign_offer(&buf, 7, &mac, src, &[Ipv4Addr::new(192, 168, 0, 50)]));
    let anon = encode_offer(&mac, 7, None, Opcode::BootReply, HType::Eth, MessageType::Offer);
    assert!(!foreign_offer(&anon, 7, &mac, Ipv4Addr::new(0, 0, 0, 0), &[]));
    assert!(foreign_offer(&anon, 7, &mac, Ipv4Addr::new(10, 0, 0, 9), &[]));
}

#[test]
fn parse_mac_ok() {
    assert_eq!(parse_mac("aa:bb:cc:dd:ee:ff").unwrap(), [0xaa, 0xbb, 0xcc, 0xdd, 0xee, 0xff]);
}

#[test]
fn read_mac_trims_and_rejects() {
    assert_eq!(read_mac("02:00:00:00:00:01\n", "eth0").unwrap(), [2, 0, 0, 0, 0, 1]);
    assert_eq!(read_mac("02-00-00-00-00-01\n", "eth0").unwrap_err(), Error::DhcpProbe("bad MAC on eth0".to_string()));
    assert!(parse_mac("aa:bb:cc:dd:ee").is_none());
}
