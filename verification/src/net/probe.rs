//! DHCPDISCOVER probe (no REQUEST): the message sent, and which replies are
//! a foreign server's DHCPOFFER. The socket itself is driven by the caller.

use vstd::prelude::*;
use vstd::string::StringExecFns;

use dhcproto::v4::{
    Decodable, Decoder, DhcpOption, Encodable, Encoder, Flags, HType, Message, MessageType, Opcode,
    OptionCode,
};

use crate::error::Error;
use crate::net::addr::Ipv4Addr;
use crate::text::{parse_unsigned, parse_unsigned_chars, split, split_chars, to_chars, trim, trim_chars};

verus! {

pub const DHCP_CLIENT_PORT: u16 = 68;

pub const DHCP_SERVER_PORT: u16 = 67;

/// Fields we need from a validated DHCPOFFER.
#[derive(Debug, Clone, Copy, PartialEq, Eq, Structural)]
pub struct OfferView {
    pub server_id: Option<Ipv4Addr>,
}

/// Big-endian bytes of a 32-bit number.
pub open spec fn be_bytes(x: u32) -> Seq<u8> {
    seq![
        (x / 0x100_0000) as u8,
        ((x / 0x1_0000) % 0x100) as u8,
        ((x / 0x100) % 0x100) as u8,
        (x % 0x100) as u8,
    ]
}

/// The number four big-endian bytes hold.
pub open spec fn be_u32(b: Seq<u8>) -> int {
    b[0] * 0x100_0000 + b[1] * 0x1_0000 + b[2] * 0x100 + b[3]
}

/// `n` zero bytes.
pub open spec fn zeros(n: nat) -> Seq<u8> {
    Seq::new(n, |i: int| 0u8)
}

/// The DHCPDISCOVER for `chaddr` and `xid`, on the wire (RFC 2131): a
/// BOOTREQUEST for Ethernet with the broadcast flag, then the magic cookie,
/// message type DISCOVER (53) and a parameter request list (55) for subnet
/// mask, router and DNS servers, then END.
pub open spec fn discover_bytes(chaddr: Seq<u8>, xid: u32) -> Seq<u8> {
    seq![1u8, 1, 6, 0] + be_bytes(xid) + seq![0u8, 0, 0x80, 0] + zeros(16) + chaddr + zeros(10)
        + zeros(64) + zeros(128) + seq![99u8, 130, 83, 99, 53, 1, 1, 55, 3, 1, 3, 6, 255]
}

/// Big-endian bytes of a 16-bit number.
pub open spec fn be16_bytes(x: u16) -> Seq<u8> {
    seq![(x / 0x100) as u8, (x % 0x100) as u8]
}

/// The fields of an outgoing DHCP message that the probe chooses; every
/// other field is zero (hops, secs, the four addresses, sname, file) and the
/// hardware address is six bytes long.
#[derive(Debug, Clone)]
pub struct DhcpFields {
    pub opcode: u8,
    pub htype: u8,
    pub xid: u32,
    pub flags: u16,
    pub chaddr: [u8; 6],
    /// Option 53.
    pub msg_type: u8,
    /// Option 55, the parameter request list.
    pub params: Vec<u8>,
}

/// A message with these fields on the wire: header, the magic cookie,
/// option 53, option 55, END (options in code order, as dhcproto writes them).
pub open spec fn message_bytes(f: DhcpFields) -> Seq<u8> {
    seq![f.opcode, f.htype, 6, 0] + be_bytes(f.xid) + seq![0u8, 0] + be16_bytes(f.flags) + zeros(16)
        + f.chaddr@ + zeros(10) + zeros(64) + zeros(128) + seq![
        99u8,
        130,
        83,
        99,
        53,
        1,
        f.msg_type,
        55,
        f.params@.len() as u8,
    ] + f.params@ + seq![255u8]
}

/// Calls dhcproto's `Message::encode` on a message with these fields.
/// Claimed: the bytes are [`message_bytes`] (the layout dhcproto writes:
/// header fields in order, `hlen` from the six-byte hardware address, zero
/// `sname`/`file`, the cookie of `Message::default`, options in code order
/// each as code, length, data, then END). The encoder's only failures are an
/// `sname`/`file` longer than its field (both are empty here) and an offset
/// overflow (the message is a few hundred bytes), so it always encodes. A
/// parameter list of 1 to 255 codes is written as one option.
#[verifier::external_body]
fn dhcp_encode(f: &DhcpFields) -> (r: Result<Vec<u8>, String>)
    requires
        1 <= f.params@.len() <= 255,
    ensures
        r is Ok,
        r matches Ok(b) ==> b@ == message_bytes(*f),
{
    let mut msg = Message::default();
    msg.set_opcode(Opcode::from(f.opcode)).set_htype(HType::from(f.htype)).set_xid(f.xid);
    msg.set_flags(Flags::from(f.flags)).set_chaddr(&f.chaddr);
    msg.opts_mut().insert(DhcpOption::MessageType(MessageType::from(f.msg_type)));
    let codes: Vec<OptionCode> = f.params.iter().map(|c| OptionCode::from(*c)).collect();
    msg.opts_mut().insert(DhcpOption::ParameterRequestList(codes));
    let mut buf = Vec::new();
    msg.encode(&mut Encoder::new(&mut buf)).map_err(|e| e.to_string())?;
    Ok(buf)
}

/// The DHCPDISCOVER the probe sends: a BOOTREQUEST (1) for Ethernet (1)
/// with the broadcast flag (0x8000), message type DISCOVER (1), asking for
/// subnet mask (1), router (3) and DNS servers (6).
pub fn discover_fields(chaddr: &[u8; 6], xid: u32) -> (r: DhcpFields)
    ensures
        r.opcode == 1,
        r.htype == 1,
        r.xid == xid,
        r.flags == 0x8000,
        r.chaddr@ == chaddr@,
        r.msg_type == 1,
        r.params@ == seq![1u8, 3, 6],
{
    let mut params: Vec<u8> = Vec::new();
    params.push(1);
    params.push(3);
    params.push(6);
    assert(params@ =~= seq![1u8, 3, 6]);
    DhcpFields { opcode: 1, htype: 1, xid, flags: 0x8000, chaddr: *chaddr, msg_type: 1, params }
}

/// Encode a DHCPDISCOVER (no I/O).
pub fn encode_discover(chaddr: &[u8; 6], xid: u32) -> (r: Result<Vec<u8>, Error>)
    ensures
        r matches Ok(b) && b@ == discover_bytes(chaddr@, xid),
{
    let f = discover_fields(chaddr, xid);
    let ghost fv = f;
    proof {
        assert(be16_bytes(0x8000u16) =~= seq![0x80u8, 0]);
        assert(message_bytes(fv) =~= discover_bytes(chaddr@, xid));
    }
    match dhcp_encode(&f) {
        Ok(b) => Ok(b),
        Err(m) => {
            let mut t = String::from_str("DHCP encode: ");
            t.append(m.as_str());
            Err(Error::DhcpProbe(t))
        },
    }
}

/// The header fields of a decoded DHCP message, and the two options we read.
#[derive(Debug, Clone, Copy)]
pub struct DhcpHeader {
    pub opcode: u8,
    pub htype: u8,
    pub hlen: u8,
    pub xid: u32,
    /// Option 53, as its number.
    pub msg_type: Option<u8>,
    /// Option 54, as its four bytes.
    pub server_id: Option<[u8; 4]>,
}

/// Options 53 (message type) and 54 (server identifier) as dhcproto's
/// `Message::decode` reads them from a message's bytes.
pub uninterp spec fn dhcp_offer_options(buf: Seq<u8>) -> (Option<u8>, Option<[u8; 4]>);

/// Calls dhcproto's `Message::decode`. Claimed, as its source shows: it
/// succeeds exactly when the fixed 240-byte part (header, addresses, chaddr,
/// sname, file, cookie) is there, the options never failing it; op, htype,
/// hlen are bytes 0..3 and xid bytes 4..8 big-endian; options 53 and 54 are
/// named by [`dhcp_offer_options`].
#[verifier::external_body]
fn dhcp_decode(buf: &[u8]) -> (r: Option<DhcpHeader>)
    ensures
        r is Some <==> buf@.len() >= 240,
        r matches Some(m) ==> {
            &&& m.opcode == buf@[0]
            &&& m.htype == buf@[1]
            &&& m.hlen == buf@[2]
            &&& m.xid as int == be_u32(buf@.subrange(4, 8))
            &&& (m.msg_type, m.server_id) == dhcp_offer_options(buf@)
        },
{
    let msg = Message::decode(&mut Decoder::new(buf)).ok()?;
    let msg_type = match msg.opts().msg_type() {
        Some(t) => Some(u8::from(t)),
        None => None,
    };
    let server_id = match msg.opts().get(OptionCode::ServerIdentifier) {
        Some(DhcpOption::ServerIdentifier(ip)) => Some(ip.octets()),
        _ => None,
    };
    let (opcode, htype) = (u8::from(msg.opcode()), u8::from(msg.htype()));
    Some(DhcpHeader { opcode, htype, hlen: msg.hlen(), xid: msg.xid(), msg_type, server_id })
}

/// A decoded message is the DHCPOFFER answering our DISCOVER: a BOOTREPLY
/// for Ethernet with a 6-byte hardware address equal to ours (bytes 28..34,
/// where RFC 2131 puts chaddr), our `xid`, and message type OFFER (2).
pub open spec fn offer_of(buf: Seq<u8>, m: DhcpHeader, xid: u32, chaddr: Seq<u8>) -> Option<OfferView> {
    if m.opcode == 2 && m.htype == 1 && m.hlen == 6 && m.xid == xid && buf.subrange(28, 34)
        == chaddr && m.msg_type == Some(2u8) {
        Some(OfferView { server_id: ipv4_of(m.server_id) })
    } else {
        None
    }
}

/// Four bytes as an address.
pub open spec fn ipv4_of(b: Option<[u8; 4]>) -> Option<Ipv4Addr> {
    match b {
        Some(o) => Some(Ipv4Addr { a: o@[0], b: o@[1], c: o@[2], d: o@[3] }),
        None => None,
    }
}

/// What [`decode_matching_offer`] gives back for a datagram.
pub open spec fn matching_offer(buf: Seq<u8>, xid: u32, chaddr: Seq<u8>) -> Option<OfferView> {
    if buf.len() >= 240 {
        let (mt, sid) = dhcp_offer_options(buf);
        offer_of(
            buf,
            DhcpHeader {
                opcode: buf[0],
                htype: buf[1],
                hlen: buf[2],
                xid: be_u32(buf.subrange(4, 8)) as u32,
                msg_type: mt,
                server_id: sid,
            },
            xid,
            chaddr,
        )
    } else {
        None
    }
}

/// Decode a DHCPOFFER that matches our DISCOVER (`xid` + `chaddr`).
pub fn decode_matching_offer(buf: &[u8], xid: u32, chaddr: &[u8; 6]) -> (r: Option<OfferView>)
    ensures
        r == matching_offer(buf@, xid, chaddr@),
{
    let m = match dhcp_decode(buf) {
        Some(m) => m,
        None => return None,
    };
    proof {
        let b = buf@;
        assert(0 <= be_u32(b.subrange(4, 8)) < 0x1_0000_0000) by {
            assert(b.subrange(4, 8)[0] < 256 && b.subrange(4, 8)[1] < 256);
            assert(b.subrange(4, 8)[2] < 256 && b.subrange(4, 8)[3] < 256);
        }
    }
    if m.opcode != 2 || m.htype != 1 || m.hlen != 6 || m.xid != xid {
        return None;
    }
    let mut k: usize = 0;
    while k < 6
        invariant
            buf@.len() >= 240,
            k <= 6,
            forall|q: int| 0 <= q < k ==> buf@[28 + q] == chaddr@[q],
        decreases 6 - k,
    {
        if buf[28 + k] != chaddr[k] {
            assert(buf@.subrange(28, 34)[k as int] != chaddr@[k as int]);
            return None;
        }
        k = k + 1;
    }
    assert(buf@.subrange(28, 34) =~= chaddr@);
    let server_id = match m.server_id {
        Some(o) => Some(Ipv4Addr { a: o[0], b: o[1], c: o[2], d: o[3] }),
        None => None,
    };
    match m.msg_type {
        Some(2) => Some(OfferView { server_id }),
        _ => None,
    }
}

/// Who made an offer: its server identifier, else a non-zero UDP source.
/// `0.0.0.0` with no option 54 cannot be told apart.
pub open spec fn identity(server_id: Option<Ipv4Addr>, udp_src: Ipv4Addr) -> Option<Ipv4Addr> {
    match server_id {
        Some(id) => Some(id),
        None => if udp_src == (Ipv4Addr { a: 0, b: 0, c: 0, d: 0 }) {
            None
        } else {
            Some(udp_src)
        },
    }
}

/// Server-id, or a non-zero UDP source (see [`identity`]).
pub fn offer_identity(server_id: Option<Ipv4Addr>, udp_src: Ipv4Addr) -> (r: Option<Ipv4Addr>)
    ensures
        r == identity(server_id, udp_src),
{
    if let Some(id) = server_id {
        return Some(id);
    }
    if !udp_src.same(&Ipv4Addr::unspecified()) {
        return Some(udp_src);
    }
    None
}

/// A datagram proves a foreign DHCP server: a matching offer whose sender
/// is known and not one of `ignore` (our own addresses).
pub open spec fn foreign_offer_spec(
    buf: Seq<u8>,
    xid: u32,
    chaddr: Seq<u8>,
    udp_src: Ipv4Addr,
    ignore: Seq<Ipv4Addr>,
) -> bool {
    match matching_offer(buf, xid, chaddr) {
        Some(o) => match identity(o.server_id, udp_src) {
            Some(id) => !ignore.contains(id),
            None => false,
        },
        None => false,
    }
}

/// Whether one received datagram shows a foreign DHCP server.
#[verifier::loop_isolation(false)]
pub fn foreign_offer(buf: &[u8], xid: u32, chaddr: &[u8; 6], udp_src: Ipv4Addr, ignore: &[Ipv4Addr]) -> (r: bool)
    ensures
        r == foreign_offer_spec(buf@, xid, chaddr@, udp_src, ignore@),
{
    let offer = match decode_matching_offer(buf, xid, chaddr) {
        Some(o) => o,
        None => return false,
    };
    let id = match offer_identity(offer.server_id, udp_src) {
        Some(id) => id,
        None => return false,
    };
    let mut i: usize = 0;
    while i < ignore.len()
        invariant
            i <= ignore@.len(),
            forall|k: int| 0 <= k < i ==> ignore@[k] != id,
        decreases ignore@.len() - i,
    {
        if ignore[i].same(&id) {
            assert(ignore@[i as int] == id);
            assert(ignore@.contains(id));
            return false;
        }
        i = i + 1;
    }
    true
}

/// What the probe's MAC parser accepts: six `:`-separated hex bytes.
pub open spec fn colon_mac(s: Seq<char>) -> Option<Seq<u8>> {
    let ps = split(s, ':');
    if ps.len() == 6 && (forall|k: int| 0 <= k < 6 ==> #[trigger] parse_unsigned(ps[k], 16, 255) is Some) {
        Some(Seq::new(6, |k: int| parse_unsigned(ps[k], 16, 255)->0 as u8))
    } else {
        None
    }
}

/// Parse `aa:bb:cc:dd:ee:ff`.
pub fn parse_mac(s: &str) -> (r: Option<[u8; 6]>)
    ensures
        match colon_mac(s@) {
            Some(b) => r matches Some(a) && a@ == b,
            None => r is None,
        },
{
    let parts = split_chars(&to_chars(s), ':');
    if parts.len() != 6 {
        return None;
    }
    let mut out: [u8; 6] = [0, 0, 0, 0, 0, 0];
    let mut i: usize = 0;
    let ghost ps = split(s@, ':');
    while i < 6
        invariant
            parts@.len() == 6,
            ps == split(s@, ':'),
            ps.len() == 6,
            forall|k: int| 0 <= k < 6 ==> #[trigger] parts@[k]@ == ps[k],
            i <= 6,
            forall|k: int| 0 <= k < i ==> parse_unsigned(#[trigger] ps[k], 16, 255) is Some
                && out@[k] == parse_unsigned(ps[k], 16, 255)->0 as u8,
        decreases 6 - i,
    {
        match parse_unsigned_chars(&parts[i], 16, 255) {
            Some(v) => {
                out[i] = v as u8;
            },
            None => {
                assert(parse_unsigned(ps[i as int], 16, 255) is None);
                return None;
            },
        }
        i = i + 1;
    }
    assert(out@ =~= colon_mac(s@)->0);
    Some(out)
}

/// The MAC in a sysfs `address` file's text (trimmed).
pub fn read_mac(address_text: &str, iface: &str) -> (r: Result<[u8; 6], Error>)
    ensures
        match colon_mac(trim(address_text@)) {
            Some(b) => r matches Ok(a) && a@ == b,
            None => r matches Err(Error::DhcpProbe(m)) && m@ == "bad MAC on "@ + iface@,
        },
{
    let t = trim_chars(&to_chars(address_text));
    let ts = crate::text::string_from_chars(&t);
    match parse_mac(ts.as_str()) {
        Some(m) => Ok(m),
        None => {
            let mut msg = String::from_str("bad MAC on ");
            msg.append(iface);
            Err(Error::DhcpProbe(msg))
        },
    }
}

/// A DISCOVER we send is never taken for an offer, whatever its `xid` and
/// hardware address: its op is BOOTREQUEST.
pub proof fn lemma_discover_is_not_offer(chaddr: Seq<u8>, xid: u32)
    requires
        chaddr.len() == 6,
    ensures
        matching_offer(discover_bytes(chaddr, xid), xid, chaddr) is None,
{
    let b = discover_bytes(chaddr, xid);
    assert(b[0] == 1u8);
}

} // verus!
