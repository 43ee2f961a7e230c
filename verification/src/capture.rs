//! What a captured frame tells: a packet, and which hardware address goes with
//! which internet address.

use pnet::packet::Packet;
use vstd::prelude::*;
use vstd::string::*;

use crate::bytes;
use crate::dhcp;
use crate::dhcp::{find_client, parse_dhcp_hostname};
use crate::net;
use crate::net::{IpAddr, mac_string};
use crate::packet;
use crate::packet::{
    CapturedPacket, PacketView, Protocol, ProtocolFilter, ethernet_fields, ipv4_fields,
    try_parse_packet, udp_fields,
};
use crate::text;

verus! {

/// Whether a packet is one of those that a filter lets through.
pub open spec fn passes(protocol: Protocol, filter: ProtocolFilter) -> bool {
    match filter {
        ProtocolFilter::All => true,
        ProtocolFilter::Tcp => protocol == Protocol::Tcp,
        ProtocolFilter::Udp => protocol == Protocol::Udp,
        ProtocolFilter::Icmp => protocol == Protocol::Icmp,
    }
}

/// Whether a packet is one of those that a filter lets through.
pub fn matches_filter(pkt: &CapturedPacket, filter: &ProtocolFilter) -> (r: bool)
    ensures
        r == passes(pkt.protocol, *filter),
{
    match filter {
        ProtocolFilter::All => true,
        ProtocolFilter::Tcp => pkt.protocol == Protocol::Tcp,
        ProtocolFilter::Udp => pkt.protocol == Protocol::Udp,
        ProtocolFilter::Icmp => pkt.protocol == Protocol::Icmp,
    }
}

/// What an address resolution message over IPv4 says.
pub struct ArpFields {
    pub operation: u16,
    pub sender_mac: [u8; 6],
    pub sender_ip: u32,
    pub target_ip: u32,
}

/// `ArpPacket::new`, `get_operation`, `get_sender_hw_addr`,
/// `get_sender_proto_addr` and `get_target_proto_addr` of `pnet`: the fields of
/// an address resolution message of at least twenty-eight bytes.
#[verifier::external_body]
pub(crate) fn arp_fields(data: &[u8]) -> (r: Option<ArpFields>)
    ensures
        match r {
            Some(f) => data@.len() >= 28 && f.operation == bytes::be16(data@, 6) && f.sender_mac@
                == data@.subrange(8, 14) && f.sender_ip == bytes::be32(data@, 14) && f.target_ip == bytes::be32(
                data@,
                24,
            ),
            None => data@.len() < 28,
        },
{
    let p = pnet::packet::arp::ArpPacket::new(data)?;
    let m = p.get_sender_hw_addr();
    Some(
        ArpFields {
            operation: p.get_operation().0,
            sender_mac: [m.0, m.1, m.2, m.3, m.4, m.5],
            sender_ip: u32::from(p.get_sender_proto_addr()),
            target_ip: u32::from(p.get_target_proto_addr()),
        },
    )
}

/// A hardware address that one host can have: not all zeros and not all ones.
pub open spec fn host_mac(m: Seq<u8>) -> bool {
    &&& exists|i: int| 0 <= i < 6 && #[trigger] m[i] != 0
    &&& exists|i: int| 0 <= i < 6 && #[trigger] m[i] != 255
}

fn is_host_mac(m: &[u8; 6]) -> (r: bool)
    ensures
        r == host_mac(m@),
{
    let zero = m[0] == 0 && m[1] == 0 && m[2] == 0 && m[3] == 0 && m[4] == 0 && m[5] == 0;
    let ones = m[0] == 255 && m[1] == 255 && m[2] == 255 && m[3] == 255 && m[4] == 255 && m[5]
        == 255;
    proof {
        let s = m@;
        assert(zero == !(exists|i: int| 0 <= i < 6 && #[trigger] s[i] != 0)) by {
            assert(s[0] == m[0] && s[1] == m[1] && s[2] == m[2] && s[3] == m[3] && s[4] == m[4]
                && s[5] == m[5]);
        }
        assert(ones == !(exists|i: int| 0 <= i < 6 && #[trigger] s[i] != 255)) by {
            assert(s[0] == m[0] && s[1] == m[1] && s[2] == m[2] && s[3] == m[3] && s[4] == m[4]
                && s[5] == m[5]);
        }
    }
    !zero && !ones
}

/// The sender that an address resolution message tells of: one that replies,
/// or that announces its own address.
pub open spec fn arp_sighting(data: Seq<u8>) -> Option<(Seq<char>, IpAddr)> {
    if data.len() >= 28 && (bytes::be16(data, 6) == 2 || bytes::be32(data, 14) == bytes::be32(data, 24)) && host_mac(
        data.subrange(8, 14),
    ) {
        Some((net::mac_text(data.subrange(8, 14), ":"@), IpAddr::V4(bytes::be32(data, 14))))
    } else {
        None
    }
}

/// What a frame tells: the host that it shows, the host that names itself in
/// it, and the packet that it holds.
pub struct FrameReport {
    pub sighting: Option<(String, IpAddr)>,
    pub client: Option<(String, IpAddr)>,
    pub packet: Option<CapturedPacket>,
}

/// An optional sighting.
pub open spec fn sighting_view(o: Option<(String, IpAddr)>) -> Option<(Seq<char>, IpAddr)> {
    match o {
        Some((mac, ip)) => Some((mac@, ip)),
        None => None,
    }
}

/// An optional packet.
pub open spec fn packet_view(o: Option<CapturedPacket>) -> Option<PacketView> {
    match o {
        Some(p) => Some(p@),
        None => None,
    }
}

/// The host that a frame shows: the sender of an address resolution message,
/// or of a packet.
pub open spec fn frame_sighting(frame: Seq<u8>, timestamp: u64) -> Option<(Seq<char>, IpAddr)> {
    if frame.len() < 14 {
        None
    } else if bytes::be16(frame, 12) == 0x0806 {
        arp_sighting(packet::behind(frame, 14))
    } else {
        match packet::packet_of(frame, timestamp) {
            Some(p) => Some((net::mac_text(frame.subrange(6, 12), ":"@), p.src_ip)),
            None => None,
        }
    }
}

/// The host that names itself in a frame: a client that asks for an address.
pub open spec fn frame_client(frame: Seq<u8>) -> Option<(Seq<char>, IpAddr)> {
    let ip = packet::behind(frame, 14);
    let d = packet::ipv4_payload(ip);
    let data = packet::behind(d, 8);
    if frame.len() < 14 || bytes::be16(frame, 12) != 0x0800 || ip.len() < 20 || ip[9] != 17
        || d.len() < 8 || bytes::be16(d, 0) != 68 || bytes::be16(d, 2) != 67 {
        None
    } else {
        match (dhcp::client_name(data), dhcp::client_address(data, bytes::be32(ip, 12))) {
            (Some(name), Some(a)) => Some((name, a)),
            _ => None,
        }
    }
}

fn read_client(frame: &[u8]) -> (r: Option<(String, IpAddr)>)
    requires
        bytes::in_memory(frame@),
    ensures
        sighting_view(r) == frame_client(frame@),
{
    let ethernet = match ethernet_fields(frame) {
        Some(e) => e,
        None => {
            return None;
        },
    };
    if ethernet.ethertype != 0x0800 {
        return None;
    }
    let ip = match ipv4_fields(ethernet.payload.as_slice()) {
        Some(i) => i,
        None => {
            return None;
        },
    };
    if ip.protocol != 17 {
        return None;
    }
    let udp = match udp_fields(ip.payload.as_slice()) {
        Some(u) => u,
        None => {
            return None;
        },
    };
    if udp.source != 68 || udp.destination != 67 {
        return None;
    }
    let data = udp.payload.as_slice();
    match (parse_dhcp_hostname(data), find_client(data, ip.source)) {
        (Some(name), Some(a)) => Some((name, a)),
        _ => None,
    }
}

/// The packet of a frame that a filter lets through.
pub open spec fn frame_packet(
    frame: Seq<u8>,
    filter: ProtocolFilter,
    timestamp: u64,
) -> Option<PacketView> {
    match packet::packet_of(frame, timestamp) {
        Some(p) if passes(p.protocol, filter) => Some(p),
        _ => None,
    }
}

/// What a frame tells, or nothing where what it carries cannot be read.
pub fn read_frame(frame: &[u8], filter: &ProtocolFilter, timestamp: u64) -> (r: Option<FrameReport>)
    requires
        bytes::in_memory(frame@),
    ensures
        match r {
            None => !packet::frame_readable(frame@),
            Some(f) => packet::frame_readable(frame@) && sighting_view(f.sighting) == frame_sighting(
                frame@,
                timestamp,
            ) && sighting_view(f.client) == frame_client(frame@) && packet_view(f.packet) == frame_packet(frame@, *filter, timestamp),
        },
{
    let client = read_client(frame);
    let ethernet = match ethernet_fields(frame) {
        Some(e) => e,
        None => {
            return Some(FrameReport { sighting: None, client, packet: None });
        },
    };
    if ethernet.ethertype == 0x0806 {
        let mut sighting: Option<(String, IpAddr)> = None;
        if let Some(arp) = arp_fields(ethernet.payload.as_slice()) {
            if (arp.operation == 2 || arp.sender_ip == arp.target_ip) && is_host_mac(
                &arp.sender_mac,
            ) {
                sighting =
                Some((mac_string(&arp.sender_mac, ":"), IpAddr::V4(arp.sender_ip)));
            }
        }
        return Some(FrameReport { sighting, client, packet: None });
    }
    match try_parse_packet(frame, timestamp) {
        None => None,
        Some(None) => Some(FrameReport { sighting: None, client, packet: None }),
        Some(Some(packet)) => {
            let sighting = Some((mac_string(&ethernet.source, ":"), packet.src_ip));
            if matches_filter(&packet, filter) {
                Some(FrameReport { sighting, client, packet: Some(packet) })
            } else {
                Some(FrameReport { sighting, client, packet: None })
            }
        },
    }
}

/// A filter only takes packets away: what it lets through is what is let
/// through without one.
pub proof fn law_filter_narrows(frame: Seq<u8>, filter: ProtocolFilter, timestamp: u64)
    ensures
        frame_packet(frame, filter, timestamp) is Some ==> frame_packet(frame, filter, timestamp)
            == frame_packet(frame, ProtocolFilter::All, timestamp),
{
}

/// A frame is seen from the hardware address it was sent with: of an ordinary
/// one with the address of its sender.
pub proof fn law_sender_seen(frame: Seq<u8>, timestamp: u64)
    requires
        frame.len() >= 14,
        frame[12] == 8 && frame[13] == 0,
    ensures
        packet::packet_of(frame, timestamp) is None ==> frame_sighting(frame, timestamp) is None,
        packet::packet_of(frame, timestamp) matches Some(p) ==> frame_sighting(frame, timestamp)
            == Some(
            (
                text::hex2(frame[6]) + ":"@ + text::hex2(frame[7]) + ":"@ + text::hex2(frame[8])
                    + ":"@ + text::hex2(frame[9]) + ":"@ + text::hex2(frame[10]) + ":"@
                    + text::hex2(frame[11]),
                p.src_ip,
            ),
        ),
{
    let m = frame.subrange(6, 12);
    assert(m[0] == frame[6] && m[1] == frame[7] && m[2] == frame[8] && m[3] == frame[9] && m[4]
        == frame[10] && m[5] == frame[11]);
}

/// A reply, and a request about the own address of its sender, show who has
/// the address; a hardware address of noughts or of nothing but ones shows
/// nobody.
pub proof fn law_address_holder_seen(frame: Seq<u8>, timestamp: u64)
    requires
        frame.len() >= 42,
        frame[12] == 8 && frame[13] == 6,
    ensures
        ({
            let reply = frame[20] == 0 && frame[21] == 2;
            let own = frame[28] == frame[38] && frame[29] == frame[39] && frame[30] == frame[40]
                && frame[31] == frame[41];
            let noughts = frame[22] == 0 && frame[23] == 0 && frame[24] == 0 && frame[25] == 0
                && frame[26] == 0 && frame[27] == 0;
            let ones = frame[22] == 255 && frame[23] == 255 && frame[24] == 255 && frame[25] == 255
                && frame[26] == 255 && frame[27] == 255;
            let seen = frame_sighting(frame, timestamp);
            &&& (reply || own) && !noughts && !ones ==> seen == Some(
                (
                    text::hex2(frame[22]) + ":"@ + text::hex2(frame[23]) + ":"@ + text::hex2(
                        frame[24],
                    ) + ":"@ + text::hex2(frame[25]) + ":"@ + text::hex2(frame[26]) + ":"@
                        + text::hex2(frame[27]),
                    IpAddr::V4(
                        (frame[28] * 0x0100_0000 + frame[29] * 0x0001_0000 + frame[30] * 0x0100
                            + frame[31]) as u32,
                    ),
                ),
            )
            &&& !reply && !own || noughts || ones ==> seen is None
        }),
{
    let data = packet::behind(frame, 14);
    assert(data =~= frame.skip(14));
    let m = data.subrange(8, 14);
    assert(m[0] == frame[22] && m[1] == frame[23] && m[2] == frame[24] && m[3] == frame[25] && m[4]
        == frame[26] && m[5] == frame[27]);
    assert(data[6] == frame[20] && data[7] == frame[21]);
    assert(data[14] == frame[28] && data[15] == frame[29] && data[16] == frame[30] && data[17]
        == frame[31] && data[24] == frame[38] && data[25] == frame[39] && data[26] == frame[40]
        && data[27] == frame[41]);
    assert(host_mac(m) == (!(m[0] == 0 && m[1] == 0 && m[2] == 0 && m[3] == 0 && m[4] == 0 && m[5]
        == 0) && !(m[0] == 255 && m[1] == 255 && m[2] == 255 && m[3] == 255 && m[4] == 255 && m[5]
        == 255)));
}

/// A filter lets the packets of its protocol pass, and the one for all lets
/// every packet pass.
pub proof fn law_filters_pass(p: Protocol)
    ensures
        passes(p, ProtocolFilter::All),
        passes(p, ProtocolFilter::Tcp) <==> p == Protocol::Tcp,
        passes(p, ProtocolFilter::Udp) <==> p == Protocol::Udp,
        passes(p, ProtocolFilter::Icmp) <==> p == Protocol::Icmp,
{
}

/// A client of DHCP is heard in a datagram from port 68 to port 67: its name,
/// and its address.
pub proof fn law_client_heard(frame: Seq<u8>, header: int, len: int, name: Seq<char>, ip: IpAddr)
    requires
        packet::carries(frame, 17, header, 8 + len),
        len >= 0,
        packet::pair_at(frame, 14 + header) == 68,
        packet::pair_at(frame, 16 + header) == 67,
        ({
            let data = frame.subrange(22 + header, 22 + header + len);
            dhcp::client_name(data) == Some(name) && dhcp::client_address(
                data,
                packet::four_at(frame, 26) as u32,
            ) == Some(ip)
        }),
    ensures
        frame_client(frame) == Some((name, ip)),
{
    packet::law_carried(frame, 17, header, 8 + len);
    let d = packet::ipv4_payload(packet::behind(frame, 14));
    let at = 14 + header;
    assert(d[0] == frame[at] && d[1] == frame[at + 1] && d[2] == frame[at + 2] && d[3] == frame[at
        + 3]);
    assert(packet::behind(d, 8) =~= frame.subrange(22 + header, 22 + header + len));
}

} // verus!
