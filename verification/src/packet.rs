//! Captured packets: what a frame on the wire says.

use pnet::packet::Packet;
use vstd::prelude::*;
use vstd::string::*;
use vstd::utf8::*;

use crate::bytes;
use crate::bytes::push_bytes;
use crate::dhcp;
use crate::dhcp::parse_dhcp_fingerprint;
use crate::dns;
use crate::dns::parse_dns_answers;
use crate::http;
use crate::http::try_http_host;
use crate::net::IpAddr;
use crate::text;
use crate::text::{copy_text, dec_text, join_texts};
use crate::tls;
use crate::tls::try_tls_client_hello;

verus! {

/// Which packets are shown.
#[derive(Clone, Copy, Debug, PartialEq, Eq, Structural)]
pub enum ProtocolFilter {
    All,
    Tcp,
    Udp,
    Icmp,
}

/// The protocol of a packet.
#[derive(Clone, Copy, Debug, PartialEq, Eq, Structural, Hash)]
pub enum Protocol {
    Tcp,
    Udp,
    Icmp,
    Unknown(u8),
}

impl Protocol {
    /// The name of a protocol.
    pub open spec fn name(self) -> Seq<char> {
        match self {
            Protocol::Tcp => "TCP"@,
            Protocol::Udp => "UDP"@,
            Protocol::Icmp => "ICMP"@,
            Protocol::Unknown(n) => number_name(n),
        }
    }

    /// The name of a protocol.
    pub fn to_text(&self) -> (r: String)
        ensures
            r@ == self.name(),
    {
        match self {
            Protocol::Tcp => "TCP".to_owned(),
            Protocol::Udp => "UDP".to_owned(),
            Protocol::Icmp => "ICMP".to_owned(),
            Protocol::Unknown(n) => number_string(*n),
        }
    }
}

/// The name of a protocol that is known by its number only.
pub open spec fn number_name(n: u8) -> Seq<char> {
    "?("@ + text::dec(n as nat) + ")"@
}

fn number_string(n: u8) -> (r: String)
    ensures
        r@ == number_name(n),
{
    let mut r = "?(".to_owned();
    r.append(dec_text(n as u64).as_str());
    r.append(")");
    r
}

/// A captured packet.
#[derive(Debug)]
pub struct CapturedPacket {
    /// When the packet was captured, in nanoseconds of the wall clock.
    pub timestamp: u64,
    pub protocol: Protocol,
    pub src_ip: IpAddr,
    pub dst_ip: IpAddr,
    pub src_port: Option<u16>,
    pub dst_port: Option<u16>,
    /// The length of the frame.
    pub size: usize,
    /// The flags of a TCP segment, or type and code of a control message.
    pub flags: Option<String>,
    pub payload: Option<Vec<u8>>,
    /// How many hops the packet may still take.
    pub ttl: Option<u8>,
    /// The receive window of a TCP segment.
    pub tcp_window: Option<u16>,
    /// The name that a DNS response answers and the addresses that it gives.
    pub dns_answers: Option<(String, Vec<IpAddr>)>,
    /// The host that a TLS or HTTP client asks for.
    pub domain_hint: Option<String>,
    /// The fingerprint of a TLS client.
    pub tls_fingerprint: Option<String>,
    /// The options that a DHCP client asks for.
    pub dhcp_fingerprint: Option<String>,
    /// The program that owns the local port.
    pub process: Option<String>,
}

/// A captured packet with its texts as character sequences.
pub struct PacketView {
    pub timestamp: u64,
    pub protocol: Protocol,
    pub src_ip: IpAddr,
    pub dst_ip: IpAddr,
    pub src_port: Option<u16>,
    pub dst_port: Option<u16>,
    pub size: usize,
    pub flags: Option<Seq<char>>,
    pub payload: Option<Seq<u8>>,
    pub ttl: Option<u8>,
    pub tcp_window: Option<u16>,
    pub dns_answers: Option<(Seq<char>, Seq<IpAddr>)>,
    pub domain_hint: Option<Seq<char>>,
    pub tls_fingerprint: Option<Seq<char>>,
    pub dhcp_fingerprint: Option<Seq<char>>,
    pub process: Option<Seq<char>>,
}

/// Optional bytes.
pub open spec fn bytes_view(o: Option<Vec<u8>>) -> Option<Seq<u8>> {
    match o {
        Some(v) => Some(v@),
        None => None,
    }
}

/// An optional name with addresses.
pub open spec fn answers_view(o: Option<(String, Vec<IpAddr>)>) -> Option<(Seq<char>, Seq<IpAddr>)> {
    match o {
        Some((name, ips)) => Some((name@, ips@)),
        None => None,
    }
}

impl View for CapturedPacket {
    type V = PacketView;

    open spec fn view(&self) -> PacketView {
        PacketView {
            timestamp: self.timestamp,
            protocol: self.protocol,
            src_ip: self.src_ip,
            dst_ip: self.dst_ip,
            src_port: self.src_port,
            dst_port: self.dst_port,
            size: self.size,
            flags: text::text_view(self.flags),
            payload: bytes_view(self.payload),
            ttl: self.ttl,
            tcp_window: self.tcp_window,
            dns_answers: answers_view(self.dns_answers),
            domain_hint: text::text_view(self.domain_hint),
            tls_fingerprint: text::text_view(self.tls_fingerprint),
            dhcp_fingerprint: text::text_view(self.dhcp_fingerprint),
            process: text::text_view(self.process),
        }
    }
}

fn copy_ips(v: &Vec<IpAddr>) -> (r: Vec<IpAddr>)
    ensures
        r@ == v@,
{
    let mut r: Vec<IpAddr> = Vec::new();
    let n: usize = v.len();
    for i in 0..n
        invariant
            n == v@.len(),
            r@ == v@.take(i as int),
    {
        r.push(v[i]);
    }
    r
}

impl CapturedPacket {
    /// A copy of the packet.
    pub fn copy(&self) -> (r: CapturedPacket)
        ensures
            r@ == self@,
    {
        let mut payload: Option<Vec<u8>> = None;
        if let Some(p) = &self.payload {
            let mut v: Vec<u8> = Vec::new();
            push_bytes(&mut v, p.as_slice());
            assert(v@ =~= p@);
            payload = Some(v);
        }
        let mut dns_answers: Option<(String, Vec<IpAddr>)> = None;
        if let Some(d) = &self.dns_answers {
            dns_answers = Some((d.0.as_str().to_owned(), copy_ips(&d.1)));
        }
        CapturedPacket {
            timestamp: self.timestamp,
            protocol: self.protocol,
            src_ip: self.src_ip,
            dst_ip: self.dst_ip,
            src_port: self.src_port,
            dst_port: self.dst_port,
            size: self.size,
            flags: copy_text(&self.flags),
            payload,
            ttl: self.ttl,
            tcp_window: self.tcp_window,
            dns_answers,
            domain_hint: copy_text(&self.domain_hint),
            tls_fingerprint: copy_text(&self.tls_fingerprint),
            dhcp_fingerprint: copy_text(&self.dhcp_fingerprint),
            process: copy_text(&self.process),
        }
    }
}

// ---------------------------------------------------------------------------
// The headers of a frame
// ---------------------------------------------------------------------------

/// What the header of an Ethernet frame says, and what follows it.
pub struct EthernetFields {
    pub source: [u8; 6],
    pub ethertype: u16,
    pub payload: Vec<u8>,
}

/// What the header of an IPv4 packet says, and what it carries.
pub struct Ipv4Fields {
    pub source: u32,
    pub destination: u32,
    pub ttl: u8,
    pub protocol: u8,
    pub payload: Vec<u8>,
}

/// What the header of a TCP segment says, and what it carries.
pub struct TcpFields {
    pub source: u16,
    pub destination: u16,
    pub flags: u8,
    pub window: u16,
    pub payload: Vec<u8>,
}

/// What the header of a UDP datagram says, and what it carries.
pub struct UdpFields {
    pub source: u16,
    pub destination: u16,
    pub payload: Vec<u8>,
}

/// The bytes behind the first `n`.
pub open spec fn behind(data: Seq<u8>, n: int) -> Seq<u8> {
    if data.len() <= n {
        Seq::empty()
    } else {
        data.skip(n)
    }
}

/// What an IPv4 packet carries: what follows its header, up to its total
/// length or the end of the data.
pub open spec fn ipv4_payload(data: Seq<u8>) -> Seq<u8> {
    let header = (data[0] % 16) * 4;
    let total = bytes::be16(data, 2) as int;
    let start = if header > 20 { header as int } else { 20 };
    let len = if total > header { total - header } else { 0 };
    let end = if start + len < data.len() { start + len } else { data.len() as int };
    if data.len() <= start {
        Seq::empty()
    } else {
        data.subrange(start, end)
    }
}

/// What a TCP segment carries: what follows its header and options.
pub open spec fn tcp_payload(data: Seq<u8>) -> Seq<u8> {
    let words = data[12] / 16;
    behind(data, if words > 5 { words * 4 } else { 20 })
}

/// `EthernetPacket::new`, `get_source`, `get_ethertype` and `payload` of
/// `pnet`: the source address, the type and the rest of a frame of at least
/// fourteen bytes.
#[verifier::external_body]
pub(crate) fn ethernet_fields(data: &[u8]) -> (r: Option<EthernetFields>)
    ensures
        match r {
            Some(f) => data@.len() >= 14 && f.source@ == data@.subrange(6, 12) && f.ethertype == bytes::be16(
                data@,
                12,
            ) && f.payload@ == behind(data@, 14),
            None => data@.len() < 14,
        },
{
    let p = pnet::packet::ethernet::EthernetPacket::new(data)?;
    let m = p.get_source();
    Some(
        EthernetFields {
            source: [m.0, m.1, m.2, m.3, m.4, m.5],
            ethertype: p.get_ethertype().0,
            payload: p.payload().to_vec(),
        },
    )
}

/// `Ipv4Packet::new`, `get_source`, `get_destination`, `get_ttl`,
/// `get_next_level_protocol` and `payload` of `pnet`: the fields of an IPv4
/// packet of at least twenty bytes, and what it carries.
#[verifier::external_body]
pub(crate) fn ipv4_fields(data: &[u8]) -> (r: Option<Ipv4Fields>)
    ensures
        match r {
            Some(f) => data@.len() >= 20 && f.ttl == data@[8] && f.protocol == data@[9] && f.source
                == bytes::be32(data@, 12) && f.destination == bytes::be32(data@, 16) && f.payload@ == ipv4_payload(
                data@,
            ),
            None => data@.len() < 20,
        },
{
    let p = pnet::packet::ipv4::Ipv4Packet::new(data)?;
    Some(
        Ipv4Fields {
            source: u32::from(p.get_source()),
            destination: u32::from(p.get_destination()),
            ttl: p.get_ttl(),
            protocol: p.get_next_level_protocol().0,
            payload: p.payload().to_vec(),
        },
    )
}

/// `TcpPacket::new`, `get_source`, `get_destination`, `get_flags`,
/// `get_window` and `payload` of `pnet`: the fields of a TCP segment of at
/// least twenty bytes, and what it carries.
#[verifier::external_body]
fn tcp_fields(data: &[u8]) -> (r: Option<TcpFields>)
    ensures
        match r {
            Some(f) => data@.len() >= 20 && f.source == bytes::be16(data@, 0) && f.destination == bytes::be16(
                data@,
                2,
            ) && f.flags == data@[13] && f.window == bytes::be16(data@, 14) && f.payload@ == tcp_payload(
                data@,
            ),
            None => data@.len() < 20,
        },
{
    let p = pnet::packet::tcp::TcpPacket::new(data)?;
    Some(
        TcpFields {
            source: p.get_source(),
            destination: p.get_destination(),
            flags: p.get_flags(),
            window: p.get_window(),
            payload: p.payload().to_vec(),
        },
    )
}

/// `UdpPacket::new`, `get_source`, `get_destination` and `payload` of `pnet`:
/// the ports of a UDP datagram of at least eight bytes, and what it carries.
#[verifier::external_body]
pub(crate) fn udp_fields(data: &[u8]) -> (r: Option<UdpFields>)
    ensures
        match r {
            Some(f) => data@.len() >= 8 && f.source == bytes::be16(data@, 0) && f.destination == bytes::be16(
                data@,
                2,
            ) && f.payload@ == behind(data@, 8),
            None => data@.len() < 8,
        },
{
    let p = pnet::packet::udp::UdpPacket::new(data)?;
    Some(
        UdpFields {
            source: p.get_source(),
            destination: p.get_destination(),
            payload: p.payload().to_vec(),
        },
    )
}

/// `IcmpPacket::new`, `get_icmp_type` and `get_icmp_code` of `pnet`: type and
/// code of a control message of at least four bytes.
#[verifier::external_body]
fn control_fields(data: &[u8]) -> (r: Option<(u8, u8)>)
    ensures
        match r {
            Some((kind, code)) => data@.len() >= 4 && kind == data@[0] && code == data@[1],
            None => data@.len() < 4,
        },
{
    let p = pnet::packet::icmp::IcmpPacket::new(data)?;
    Some((p.get_icmp_type().0, p.get_icmp_code().0))
}

// ---------------------------------------------------------------------------
// Flags and control messages
// ---------------------------------------------------------------------------

/// The name of a type of control message.
pub open spec fn control_name(kind: u8) -> Seq<char> {
    if kind == 0 {
        "Echo-Reply"@
    } else if kind == 3 {
        "Dest-Unreach"@
    } else if kind == 8 {
        "Echo-Request"@
    } else if kind == 9 {
        "Router-Adv"@
    } else if kind == 10 {
        "Router-Sel"@
    } else if kind == 11 {
        "Time-Excd"@
    } else if kind == 12 {
        "Param-Prob"@
    } else if kind == 13 {
        "Timestamp"@
    } else if kind == 14 {
        "Timestamp-Rep"@
    } else if kind == 15 {
        "Info-Request"@
    } else if kind == 16 {
        "Info-Reply"@
    } else if kind == 17 {
        "Addr-Request"@
    } else if kind == 18 {
        "Addr-Reply"@
    } else {
        "ICMP"@
    }
}

/// Type and code of a control message; code zero is left out.
pub open spec fn control_text(kind: u8, code: u8) -> Seq<char> {
    if code == 0 {
        control_name(kind)
    } else {
        control_name(kind) + "(c"@ + text::dec(code as nat) + ")"@
    }
}

fn control_type_name(kind: u8) -> (r: &'static str)
    ensures
        r@ == control_name(kind),
{
    match kind {
        0 => "Echo-Reply",
        3 => "Dest-Unreach",
        8 => "Echo-Request",
        9 => "Router-Adv",
        10 => "Router-Sel",
        11 => "Time-Excd",
        12 => "Param-Prob",
        13 => "Timestamp",
        14 => "Timestamp-Rep",
        15 => "Info-Request",
        16 => "Info-Reply",
        17 => "Addr-Request",
        18 => "Addr-Reply",
        _ => "ICMP",
    }
}

fn code_suffix(r: &mut String, code: u8)
    ensures
        final(r)@ == old(r)@ + "(c"@ + text::dec(code as nat) + ")"@,
{
    r.append("(c");
    r.append(dec_text(code as u64).as_str());
    r.append(")");
}

/// Type and code of a control message.
pub fn format_icmp_type_code(icmp_type: u8, icmp_code: u8) -> (r: String)
    ensures
        r@ == control_text(icmp_type, icmp_code),
{
    let mut r = control_type_name(icmp_type).to_owned();
    if icmp_code != 0 {
        code_suffix(&mut r, icmp_code);
    }
    r
}

/// The names of the flags that are set.
pub open spec fn flag_names(f: u8) -> Seq<Seq<char>> {
    let none = Seq::<Seq<char>>::empty();
    let a = if f & 2 != 0 { none.push("SYN"@) } else { none };
    let b = if f & 16 != 0 { a.push("ACK"@) } else { a };
    let c = if f & 1 != 0 { b.push("FIN"@) } else { b };
    let d = if f & 4 != 0 { c.push("RST"@) } else { c };
    let e = if f & 8 != 0 { d.push("PSH"@) } else { d };
    if f & 32 != 0 { e.push("URG"@) } else { e }
}

/// The names of the flags that are set with plus signs between them, or a dash.
pub open spec fn flag_text(f: u8) -> Seq<char> {
    if flag_names(f).len() == 0 {
        "\u{2014}"@
    } else {
        text::join(flag_names(f), "+"@)
    }
}

fn add_flag(parts: &mut Vec<String>, set: bool, name: &'static str)
    ensures
        text::texts(final(parts)@) == (if set {
            text::texts(old(parts)@).push(name@)
        } else {
            text::texts(old(parts)@)
        }),
{
    if set {
        parts.push(name.to_owned());
        assert(text::texts(parts@) =~= text::texts(old(parts)@).push(name@));
    }
}

/// The names of the flags that are set.
pub fn parse_tcp_flags(f: u8) -> (r: String)
    ensures
        r@ == flag_text(f),
{
    let mut parts: Vec<String> = Vec::new();
    assert(text::texts(parts@) =~= Seq::<Seq<char>>::empty());
    add_flag(&mut parts, f & 2 != 0, "SYN");
    add_flag(&mut parts, f & 16 != 0, "ACK");
    add_flag(&mut parts, f & 1 != 0, "FIN");
    add_flag(&mut parts, f & 4 != 0, "RST");
    add_flag(&mut parts, f & 8 != 0, "PSH");
    add_flag(&mut parts, f & 32 != 0, "URG");
    assert(text::texts(parts@).len() == parts@.len());
    if parts.len() == 0 {
        "\u{2014}".to_owned()
    } else {
        join_texts(&parts, "+")
    }
}

// ---------------------------------------------------------------------------
// Whole packets
// ---------------------------------------------------------------------------

/// A packet of which only the addresses are known yet.
pub open spec fn plain_packet(
    protocol: Protocol,
    ip: Seq<u8>,
    size: usize,
    timestamp: u64,
) -> PacketView {
    PacketView {
        timestamp,
        protocol,
        src_ip: IpAddr::V4(bytes::be32(ip, 12)),
        dst_ip: IpAddr::V4(bytes::be32(ip, 16)),
        src_port: None,
        dst_port: None,
        size,
        flags: None,
        payload: None,
        ttl: Some(ip[8]),
        tcp_window: None,
        dns_answers: None,
        domain_hint: None,
        tls_fingerprint: None,
        dhcp_fingerprint: None,
        process: None,
    }
}

/// The host that the client of a TCP segment asks for and its fingerprint.
pub open spec fn client_hints(port: u16, payload: Seq<u8>) -> (Option<Seq<char>>, Option<Seq<char>>) {
    if port == 443 {
        tls::client_hello(payload)
    } else if port == 80 || port == 8080 {
        (http::request_host(payload), None)
    } else {
        (None, None)
    }
}

/// What a TCP segment carries can be read.
pub open spec fn segment_readable(port: u16, payload: Seq<u8>) -> bool {
    &&& port == 443 ==> tls::hello_readable(payload)
    &&& port == 80 || port == 8080 ==> http::request_readable(payload)
}

/// The packet that a TCP segment in an IPv4 packet is.
pub open spec fn tcp_packet(ip: Seq<u8>, size: usize, timestamp: u64) -> Option<PacketView> {
    let d = ipv4_payload(ip);
    if d.len() < 20 {
        None
    } else {
        let hints = client_hints(bytes::be16(d, 2), tcp_payload(d));
        Some(
            PacketView {
                src_port: Some(bytes::be16(d, 0)),
                dst_port: Some(bytes::be16(d, 2)),
                flags: Some(flag_text(d[13])),
                tcp_window: Some(bytes::be16(d, 14)),
                domain_hint: hints.0,
                tls_fingerprint: hints.1,
                ..plain_packet(Protocol::Tcp, ip, size, timestamp)
            },
        )
    }
}

/// The packet that a UDP datagram in an IPv4 packet is.
pub open spec fn udp_packet(ip: Seq<u8>, size: usize, timestamp: u64) -> Option<PacketView> {
    let d = ipv4_payload(ip);
    if d.len() < 8 {
        None
    } else {
        let from = bytes::be16(d, 0);
        let to = bytes::be16(d, 2);
        Some(
            PacketView {
                src_port: Some(from),
                dst_port: Some(to),
                dns_answers: if from == 53 { dns::dns_answers(behind(d, 8)) } else { None },
                dhcp_fingerprint: if from == 68 && to == 67 || from == 67 && to == 68 {
                    dhcp::client_fingerprint(behind(d, 8))
                } else {
                    None
                },
                ..plain_packet(Protocol::Udp, ip, size, timestamp)
            },
        )
    }
}

/// The packet that a control message in an IPv4 packet is.
pub open spec fn control_packet(ip: Seq<u8>, size: usize, timestamp: u64) -> Option<PacketView> {
    let d = ipv4_payload(ip);
    if d.len() < 4 {
        None
    } else {
        Some(
            PacketView {
                flags: Some(control_text(d[0], d[1])),
                ..plain_packet(Protocol::Icmp, ip, size, timestamp)
            },
        )
    }
}

/// The packet that a frame holds: TCP, UDP or ICMP over IPv4.
pub open spec fn packet_of(frame: Seq<u8>, timestamp: u64) -> Option<PacketView> {
    let ip = behind(frame, 14);
    let size = length_of(frame);
    if frame.len() < 14 || bytes::be16(frame, 12) != 0x0800 || ip.len() < 20 {
        None
    } else if ip[9] == 6 {
        tcp_packet(ip, size, timestamp)
    } else if ip[9] == 17 {
        udp_packet(ip, size, timestamp)
    } else if ip[9] == 1 {
        control_packet(ip, size, timestamp)
    } else {
        None
    }
}

/// The length of a frame.
pub open spec fn length_of(frame: Seq<u8>) -> usize {
    frame.len() as usize
}

/// What a frame carries can be read.
pub open spec fn frame_readable(frame: Seq<u8>) -> bool {
    let ip = behind(frame, 14);
    let d = ipv4_payload(ip);
    frame.len() >= 14 && bytes::be16(frame, 12) == 0x0800 && ip.len() >= 20 && ip[9] == 6 && d.len() >= 20
        ==> segment_readable(bytes::be16(d, 2), tcp_payload(d))
}

fn v4_of(n: u32) -> (r: IpAddr)
    ensures
        r == IpAddr::V4(n),
{
    IpAddr::V4(n)
}

/// The packet that a TCP segment is, or nothing where what it carries cannot
/// be read.
fn read_tcp(ip: &Ipv4Fields, size: usize, timestamp: u64) -> (r: Option<Option<CapturedPacket>>)
    requires
        bytes::in_memory(ip.payload@),
    ensures
        ({
            let d = ip.payload@;
            match r {
                None => d.len() >= 20 && !segment_readable(bytes::be16(d, 2), tcp_payload(d)),
                Some(None) => d.len() < 20,
                Some(Some(p)) => {
                    let hints = client_hints(bytes::be16(d, 2), tcp_payload(d));
                    &&& d.len() >= 20
                    &&& segment_readable(bytes::be16(d, 2), tcp_payload(d))
                    &&& p@ == PacketView {
                        timestamp,
                        protocol: Protocol::Tcp,
                        src_ip: IpAddr::V4(ip.source),
                        dst_ip: IpAddr::V4(ip.destination),
                        src_port: Some(bytes::be16(d, 0)),
                        dst_port: Some(bytes::be16(d, 2)),
                        size,
                        flags: Some(flag_text(d[13])),
                        payload: None,
                        ttl: Some(ip.ttl),
                        tcp_window: Some(bytes::be16(d, 14)),
                        dns_answers: None,
                        domain_hint: hints.0,
                        tls_fingerprint: hints.1,
                        dhcp_fingerprint: None,
                        process: None,
                    }
                },
            }
        }),
{
    let tcp = match tcp_fields(ip.payload.as_slice()) {
        Some(t) => t,
        None => {
            return Some(None);
        },
    };
    let mut domain_hint: Option<String> = None;
    let mut tls_fingerprint: Option<String> = None;
    if tcp.destination == 443 {
        match try_tls_client_hello(tcp.payload.as_slice()) {
            Some((sni, ja4)) => {
                domain_hint = sni;
                tls_fingerprint = ja4;
            },
            None => {
                return None;
            },
        }
    } else if tcp.destination == 80 || tcp.destination == 8080 {
        match try_http_host(tcp.payload.as_slice()) {
            Some(host) => {
                domain_hint = host;
            },
            None => {
                return None;
            },
        }
    }
    let flags = parse_tcp_flags(tcp.flags);
    Some(
        Some(
            CapturedPacket {
                timestamp,
                protocol: Protocol::Tcp,
                src_ip: v4_of(ip.source),
                dst_ip: v4_of(ip.destination),
                src_port: Some(tcp.source),
                dst_port: Some(tcp.destination),
                size,
                flags: Some(flags),
                payload: None,
                ttl: Some(ip.ttl),
                tcp_window: Some(tcp.window),
                dns_answers: None,
                domain_hint,
                tls_fingerprint,
                dhcp_fingerprint: None,
                process: None,
            },
        ),
    )
}

/// The packet that a frame holds, or nothing where what the frame carries
/// cannot be read.
pub fn try_parse_packet(frame: &[u8], timestamp: u64) -> (r: Option<Option<CapturedPacket>>)
    requires
        bytes::in_memory(frame@),
    ensures
        match r {
            None => !frame_readable(frame@),
            Some(None) => frame_readable(frame@) && packet_of(frame@, timestamp) is None,
            Some(Some(p)) => frame_readable(frame@) && packet_of(frame@, timestamp) == Some(p@),
        },
{
    let ethernet = match ethernet_fields(frame) {
        Some(e) => e,
        None => {
            return Some(None);
        },
    };
    if ethernet.ethertype != 0x0800 {
        return Some(None);
    }
    let ip = match ipv4_fields(ethernet.payload.as_slice()) {
        Some(i) => i,
        None => {
            return Some(None);
        },
    };
    let size: usize = frame.len();
    if ip.protocol == 6 {
        read_tcp(&ip, size, timestamp)
    } else if ip.protocol == 17 {
        let udp = match udp_fields(ip.payload.as_slice()) {
            Some(u) => u,
            None => {
                return Some(None);
            },
        };
        let mut dns_answers: Option<(String, Vec<IpAddr>)> = None;
        if udp.source == 53 {
            dns_answers = parse_dns_answers(udp.payload.as_slice());
        }
        let mut dhcp_fingerprint: Option<String> = None;
        if udp.source == 68 && udp.destination == 67 || udp.source == 67 && udp.destination == 68 {
            dhcp_fingerprint = parse_dhcp_fingerprint(udp.payload.as_slice());
        }
        Some(
            Some(
                CapturedPacket {
                    timestamp,
                    protocol: Protocol::Udp,
                    src_ip: v4_of(ip.source),
                    dst_ip: v4_of(ip.destination),
                    src_port: Some(udp.source),
                    dst_port: Some(udp.destination),
                    size,
                    flags: None,
                    payload: None,
                    ttl: Some(ip.ttl),
                    tcp_window: None,
                    dns_answers,
                    domain_hint: None,
                    tls_fingerprint: None,
                    dhcp_fingerprint,
                    process: None,
                },
            ),
        )
    } else if ip.protocol == 1 {
        let (kind, code) = match control_fields(ip.payload.as_slice()) {
            Some(c) => c,
            None => {
                return Some(None);
            },
        };
        let info = format_icmp_type_code(kind, code);
        Some(
            Some(
                CapturedPacket {
                    timestamp,
                    protocol: Protocol::Icmp,
                    src_ip: v4_of(ip.source),
                    dst_ip: v4_of(ip.destination),
                    src_port: None,
                    dst_port: None,
                    size,
                    flags: Some(info),
                    payload: None,
                    ttl: Some(ip.ttl),
                    tcp_window: None,
                    dns_answers: None,
                    domain_hint: None,
                    tls_fingerprint: None,
                    dhcp_fingerprint: None,
                    process: None,
                },
            ),
        )
    } else {
        Some(None)
    }
}

/// The packet that a frame holds: TCP, UDP or ICMP over IPv4.
pub fn parse_packet(frame: &[u8], timestamp: u64) -> (r: Option<CapturedPacket>)
    requires
        bytes::in_memory(frame@),
        frame_readable(frame@),
    ensures
        match r {
            None => packet_of(frame@, timestamp) is None,
            Some(p) => packet_of(frame@, timestamp) == Some(p@),
        },
{
    match try_parse_packet(frame, timestamp) {
        Some(p) => p,
        None => None,
    }
}

// ---------------------------------------------------------------------------
// Where things stand in a frame
// ---------------------------------------------------------------------------

/// The number in the two bytes at `i`, the higher one first.
pub open spec fn pair_at(frame: Seq<u8>, i: int) -> int {
    frame[i] * 256 + frame[i + 1]
}

/// The number in the four bytes at `i`, the highest one first.
pub open spec fn four_at(frame: Seq<u8>, i: int) -> int {
    frame[i] * 0x0100_0000 + frame[i + 1] * 0x0001_0000 + frame[i + 2] * 0x0100 + frame[i + 3]
}

/// A frame that carries an IPv4 packet with a header of `header` bytes and
/// `len` bytes behind it; what follows in the frame belongs to nothing.
pub open spec fn carries(frame: Seq<u8>, protocol: u8, header: int, len: int) -> bool {
    &&& frame.len() >= 14 + header + len
    &&& frame[12] == 8
    &&& frame[13] == 0
    &&& header >= 20
    &&& len >= 0
    &&& frame[14] % 16 == header / 4
    &&& header % 4 == 0
    &&& pair_at(frame, 16) == header + len
    &&& frame[23] == protocol
}

/// What is said of a packet in the header that every IPv4 packet has.
pub open spec fn header_told(frame: Seq<u8>, timestamp: u64, p: PacketView) -> bool {
    &&& p.timestamp == timestamp
    &&& p.src_ip matches IpAddr::V4(n) && n == four_at(frame, 26)
    &&& p.dst_ip matches IpAddr::V4(n) && n == four_at(frame, 30)
    &&& p.ttl == Some(frame[22])
    &&& p.size == frame.len()
    &&& p.payload is None
    &&& p.process is None
}

/// What a frame that carries a packet holds, where it stands.
pub proof fn law_carried(frame: Seq<u8>, protocol: u8, header: int, len: int)
    requires
        carries(frame, protocol, header, len),
    ensures
        ({
            let ip = behind(frame, 14);
            &&& ip.len() >= 20
            &&& ip == frame.skip(14)
            &&& bytes::be16(frame, 12) == 0x0800
            &&& ip[9] == protocol
            &&& ip[8] == frame[22]
            &&& ipv4_payload(ip) == frame.subrange(14 + header, 14 + header + len)
            &&& bytes::be32(ip, 12) == four_at(frame, 26)
            &&& bytes::be32(ip, 16) == four_at(frame, 30)
        }),
{
    let ip = behind(frame, 14);
    assert(ip =~= frame.skip(14));
    assert(ip[0] == frame[14] && ip[2] == frame[16] && ip[3] == frame[17]);
    assert((ip[0] % 16) * 4 == header);
    let d = frame.subrange(14 + header, 14 + header + len);
    if ip.len() > header {
        assert(ipv4_payload(ip) =~= d);
    } else {
        assert(ipv4_payload(ip) =~= d);
    }
}

/// What is read of a frame that carries a TCP segment: the addresses, the
/// ports, the flags and the window at their places, and from what the segment
/// carries a name, by the port it goes to.
#[verifier::rlimit(40)]
pub proof fn law_segment_read(frame: Seq<u8>, timestamp: u64, header: int, options: int, len: int)
    requires
        frame.len() <= usize::MAX,
        carries(frame, 6, header, 20 + options + len),
        0 <= options <= 40,
        len >= 0,
        frame[14 + header + 12] / 16 == (20 + options) / 4,
        options % 4 == 0,
    ensures
        ({
            let at = 14 + header;
            let payload = frame.subrange(at + 20 + options, at + 20 + options + len);
            let p = packet_of(frame, timestamp)->0;
            let port = pair_at(frame, at + 2);
            &&& packet_of(frame, timestamp) is Some
            &&& header_told(frame, timestamp, p)
            &&& p.protocol == Protocol::Tcp
            &&& p.src_port is Some && p.src_port->0 == pair_at(frame, at)
            &&& p.dst_port is Some && p.dst_port->0 == port
            &&& p.tcp_window is Some && p.tcp_window->0 == pair_at(frame, at + 14)
            &&& p.flags == Some(flag_text(frame[at + 13]))
            &&& p.dns_answers is None
            &&& p.dhcp_fingerprint is None
            &&& port == 80 || port == 8080 ==> p.domain_hint == http::request_host(payload)
                && p.tls_fingerprint is None
            &&& port == 443 ==> (p.domain_hint, p.tls_fingerprint) == tls::client_hello(payload)
            &&& port != 80 && port != 8080 && port != 443 ==> p.domain_hint is None
                && p.tls_fingerprint is None
        }),
{
    law_carried(frame, 6, header, 20 + options + len);
    let at = 14 + header;
    let d = ipv4_payload(behind(frame, 14));
    assert(d[0] == frame[at] && d[1] == frame[at + 1] && d[2] == frame[at + 2] && d[3] == frame[at
        + 3] && d[12] == frame[at + 12] && d[13] == frame[at + 13] && d[14] == frame[at + 14]
        && d[15] == frame[at + 15]);
    let payload = frame.subrange(at + 20 + options, at + 20 + options + len);
    assert(tcp_payload(d) =~= payload);
}

/// A segment to port 80 or to port 8080 that carries a request tells the host
/// that the request names, in lower case and without its port, whichever of
/// the two ports it is.
#[verifier::rlimit(40)]
pub proof fn law_web_host_read(
    frame: Seq<u8>,
    timestamp: u64,
    header: int,
    options: int,
    verb: Seq<char>,
    before: Seq<char>,
    field: Seq<char>,
    spaces: Seq<char>,
    host: Seq<char>,
    port: Seq<char>,
    after: Seq<char>,
)
    requires
        frame.len() <= usize::MAX,
        ({
            let request = encode_utf8(
                verb + before + (field + spaces + host + port + seq!['\r', '\n'] + after),
            );
            let len = request.len() as int;
            let at = 14 + header;
            &&& len < 512
            &&& carries(frame, 6, header, 20 + options + len)
            &&& 0 <= options <= 40
            &&& frame[at + 12] / 16 == (20 + options) / 4
            &&& options % 4 == 0
            &&& frame.subrange(at + 20 + options, at + 20 + options + len) == request
            &&& pair_at(frame, at + 2) == 80 || pair_at(frame, at + 2) == 8080
        }),
        http::method(verb),
        before.len() > 0 && before.last() == '\n',
        forall|i: int|
            0 <= i < text::lines(verb + before).len() ==> !text::starts(
                text::ascii_lower(#[trigger] text::lines(verb + before)[i]),
                "host:"@,
            ),
        text::ascii_lower(field) == "host:"@,
        forall|i: int| 0 <= i < spaces.len() ==> #[trigger] spaces[i] == ' ',
        host.len() > 0,
        forall|i: int| 0 <= i < host.len() ==> #[trigger] host[i] != ':' && !text::is_white(host[i]),
        port.len() > 0 ==> port[0] == ':' && forall|i: int|
            0 <= i < port.len() ==> !text::is_white(#[trigger] port[i]),
        spaces.len() + host.len() + port.len() >= 2,
    ensures
        packet_of(frame, timestamp) is Some,
        packet_of(frame, timestamp)->0.domain_hint == Some(text::lowered(host)),
{
    let request = encode_utf8(
        verb + before + (field + spaces + host + port + seq!['\r', '\n'] + after),
    );
    law_segment_read(frame, timestamp, header, options, request.len() as int);
    http::law_request_tells_host(verb, before, field, spaces, host, port, after);
}

/// What is read of a frame that carries a UDP datagram: the addresses and the
/// ports at their places, and from what the datagram carries the answers of a
/// DNS server and the options that a DHCP client asks for.
#[verifier::rlimit(40)]
pub proof fn law_datagram_read(frame: Seq<u8>, timestamp: u64, header: int, len: int)
    requires
        frame.len() <= usize::MAX,
        carries(frame, 17, header, 8 + len),
        len >= 0,
    ensures
        ({
            let at = 14 + header;
            let payload = frame.subrange(at + 8, at + 8 + len);
            let p = packet_of(frame, timestamp)->0;
            let from = pair_at(frame, at);
            let to = pair_at(frame, at + 2);
            &&& packet_of(frame, timestamp) is Some
            &&& header_told(frame, timestamp, p)
            &&& p.protocol == Protocol::Udp
            &&& p.src_port is Some && p.src_port->0 == from
            &&& p.dst_port is Some && p.dst_port->0 == to
            &&& p.flags is None
            &&& p.tcp_window is None
            &&& p.domain_hint is None
            &&& p.tls_fingerprint is None
            &&& from == 53 ==> p.dns_answers == dns::dns_answers(payload)
            &&& from != 53 ==> p.dns_answers is None
            &&& from == 68 && to == 67 ==> p.dhcp_fingerprint == dhcp::client_fingerprint(payload)
            &&& from == 67 && to == 68 ==> p.dhcp_fingerprint == dhcp::client_fingerprint(payload)
            &&& !(from == 68 && to == 67) && !(from == 67 && to == 68) ==> p.dhcp_fingerprint is None
        }),
{
    law_carried(frame, 17, header, 8 + len);
    let at = 14 + header;
    let d = ipv4_payload(behind(frame, 14));
    assert(d[0] == frame[at] && d[1] == frame[at + 1] && d[2] == frame[at + 2] && d[3] == frame[at
        + 3]);
    let payload = frame.subrange(at + 8, at + 8 + len);
    assert(behind(d, 8) =~= payload);
}

/// Nothing is read of a frame that carries no IPv4 packet, nor of a packet of
/// any other protocol than TCP, UDP and ICMP.
pub proof fn law_other_frames_not_read(frame: Seq<u8>, timestamp: u64)
    requires
        frame.len() < 34 || pair_at(frame, 12) != 0x0800 || frame[23] != 6 && frame[23] != 17
            && frame[23] != 1,
    ensures
        packet_of(frame, timestamp) is None,
{
    if frame.len() >= 34 {
        assert(behind(frame, 14)[9] == frame[23]);
    }
}

/// The names of the flags of a segment: each stands for a bit of the flags.
pub proof fn law_flag_bits(f: u8)
    ensures
        flag_names(f).contains("FIN"@) <==> f & 0x01 != 0,
        flag_names(f).contains("SYN"@) <==> f & 0x02 != 0,
        flag_names(f).contains("RST"@) <==> f & 0x04 != 0,
        flag_names(f).contains("PSH"@) <==> f & 0x08 != 0,
        flag_names(f).contains("ACK"@) <==> f & 0x10 != 0,
        flag_names(f).contains("URG"@) <==> f & 0x20 != 0,
{
    reveal_strlit("SYN");
    reveal_strlit("ACK");
    reveal_strlit("FIN");
    reveal_strlit("RST");
    reveal_strlit("PSH");
    reveal_strlit("URG");
    assert("SYN"@[0] == 'S' && "ACK"@[0] == 'A' && "FIN"@[0] == 'F' && "RST"@[0] == 'R' && "PSH"@[0]
        == 'P' && "URG"@[0] == 'U');
    let none = Seq::<Seq<char>>::empty();
    let a = if f & 2 != 0 { none.push("SYN"@) } else { none };
    let b = if f & 16 != 0 { a.push("ACK"@) } else { a };
    let c = if f & 1 != 0 { b.push("FIN"@) } else { b };
    let d = if f & 4 != 0 { c.push("RST"@) } else { c };
    let e = if f & 8 != 0 { d.push("PSH"@) } else { d };
    let n = flag_names(f);
    if f & 2 != 0 {
        assert(n[0] == "SYN"@);
    }
    if f & 16 != 0 {
        assert(n[a.len() as int] == "ACK"@);
    }
    if f & 1 != 0 {
        assert(n[b.len() as int] == "FIN"@);
    }
    if f & 4 != 0 {
        assert(n[c.len() as int] == "RST"@);
    }
    if f & 8 != 0 {
        assert(n[d.len() as int] == "PSH"@);
    }
    if f & 32 != 0 {
        assert(n[e.len() as int] == "URG"@);
    }
}

/// How the flags of ordinary segments and of none are shown.
pub proof fn law_flags_shown(f: u8)
    ensures
        f & 0x3F == 0x02 ==> flag_text(f) == "SYN"@,
        f & 0x3F == 0x10 ==> flag_text(f) == "ACK"@,
        f & 0x3F == 0x04 ==> flag_text(f) == "RST"@,
        f & 0x3F == 0x12 ==> flag_text(f) == "SYN"@ + "+"@ + "ACK"@,
        f & 0x3F == 0x11 ==> flag_text(f) == "ACK"@ + "+"@ + "FIN"@,
        f & 0x3F == 0x14 ==> flag_text(f) == "ACK"@ + "+"@ + "RST"@,
        f & 0x3F == 0x18 ==> flag_text(f) == "ACK"@ + "+"@ + "PSH"@,
        f & 0x3F == 0x03 ==> flag_text(f) == "SYN"@ + "+"@ + "FIN"@,
        f & 0x3F == 0x29 ==> flag_text(f) == "FIN"@ + "+"@ + "PSH"@ + "+"@ + "URG"@,
        f & 0x3F == 0 ==> flag_text(f) == "\u{2014}"@,
{
    let m = f & 0x3F;
    assert(m & 2 == f & 2 && m & 16 == f & 16 && m & 1 == f & 1 && m & 4 == f & 4 && m & 8 == f & 8
        && m & 32 == f & 32) by (bit_vector)
        requires
            m == f & 0x3F,
    ;
    assert(0x02u8 & 2 != 0 && 0x02u8 & 16 == 0 && 0x02u8 & 1 == 0 && 0x02u8 & 4 == 0 && 0x02u8 & 8
        == 0 && 0x02u8 & 32 == 0) by (bit_vector);
    assert(0x10u8 & 2 == 0 && 0x10u8 & 16 != 0 && 0x10u8 & 1 == 0 && 0x10u8 & 4 == 0 && 0x10u8 & 8
        == 0 && 0x10u8 & 32 == 0) by (bit_vector);
    assert(0x04u8 & 2 == 0 && 0x04u8 & 16 == 0 && 0x04u8 & 1 == 0 && 0x04u8 & 4 != 0 && 0x04u8 & 8
        == 0 && 0x04u8 & 32 == 0) by (bit_vector);
    assert(0x12u8 & 2 != 0 && 0x12u8 & 16 != 0 && 0x12u8 & 1 == 0 && 0x12u8 & 4 == 0 && 0x12u8 & 8
        == 0 && 0x12u8 & 32 == 0) by (bit_vector);
    assert(0x11u8 & 2 == 0 && 0x11u8 & 16 != 0 && 0x11u8 & 1 != 0 && 0x11u8 & 4 == 0 && 0x11u8 & 8
        == 0 && 0x11u8 & 32 == 0) by (bit_vector);
    assert(0x14u8 & 2 == 0 && 0x14u8 & 16 != 0 && 0x14u8 & 1 == 0 && 0x14u8 & 4 != 0 && 0x14u8 & 8
        == 0 && 0x14u8 & 32 == 0) by (bit_vector);
    assert(0x18u8 & 2 == 0 && 0x18u8 & 16 != 0 && 0x18u8 & 1 == 0 && 0x18u8 & 4 == 0 && 0x18u8 & 8
        != 0 && 0x18u8 & 32 == 0) by (bit_vector);
    assert(0x03u8 & 2 != 0 && 0x03u8 & 16 == 0 && 0x03u8 & 1 != 0 && 0x03u8 & 4 == 0 && 0x03u8 & 8
        == 0 && 0x03u8 & 32 == 0) by (bit_vector);
    assert(0x29u8 & 2 == 0 && 0x29u8 & 16 == 0 && 0x29u8 & 1 != 0 && 0x29u8 & 4 == 0 && 0x29u8 & 8
        != 0 && 0x29u8 & 32 != 0) by (bit_vector);
    assert(0u8 & 2 == 0 && 0u8 & 16 == 0 && 0u8 & 1 == 0 && 0u8 & 4 == 0 && 0u8 & 8 == 0 && 0u8 & 32
        == 0) by (bit_vector);
    reveal_with_fuel(text::join, 4);
    let n = flag_names(f);
    if m == 0x02 || m == 0x10 || m == 0x04 {
        assert(n.len() == 1);
        assert(n.drop_last() =~= Seq::<Seq<char>>::empty());
    }
    if m == 0x12 {
        assert(n =~= seq!["SYN"@, "ACK"@]);
    }
    if m == 0x11 {
        assert(n =~= seq!["ACK"@, "FIN"@]);
    }
    if m == 0x14 {
        assert(n =~= seq!["ACK"@, "RST"@]);
    }
    if m == 0x18 {
        assert(n =~= seq!["ACK"@, "PSH"@]);
    }
    if m == 0x03 {
        assert(n =~= seq!["SYN"@, "FIN"@]);
    }
    if m == 0x29 {
        assert(n =~= seq!["FIN"@, "PSH"@, "URG"@]);
    }
}

/// What is read of a frame that carries a control message: the addresses, and
/// its type and code.
pub proof fn law_control_message_read(frame: Seq<u8>, timestamp: u64, header: int, len: int)
    requires
        frame.len() <= usize::MAX,
        carries(frame, 1, header, len),
        len >= 4,
    ensures
        ({
            let p = packet_of(frame, timestamp)->0;
            &&& packet_of(frame, timestamp) is Some
            &&& header_told(frame, timestamp, p)
            &&& p.protocol == Protocol::Icmp
            &&& p.flags == Some(control_text(frame[14 + header], frame[15 + header]))
            &&& p.src_port is None
            &&& p.dst_port is None
            &&& p.domain_hint is None
            &&& p.dns_answers is None
        }),
{
    law_carried(frame, 1, header, len);
    let d = ipv4_payload(behind(frame, 14));
    assert(d[0] == frame[14 + header] && d[1] == frame[15 + header]);
}

/// How the types of control messages are shown, and a code behind them.
pub proof fn law_control_messages_shown(code: u8)
    ensures
        control_text(0, 0) == "Echo-Reply"@,
        control_text(3, 0) == "Dest-Unreach"@,
        control_text(8, 0) == "Echo-Request"@,
        control_text(9, 0) == "Router-Adv"@,
        control_text(10, 0) == "Router-Sel"@,
        control_text(11, 0) == "Time-Excd"@,
        control_text(12, 0) == "Param-Prob"@,
        control_text(13, 0) == "Timestamp"@,
        control_text(14, 0) == "Timestamp-Rep"@,
        control_text(15, 0) == "Info-Request"@,
        control_text(16, 0) == "Info-Reply"@,
        control_text(17, 0) == "Addr-Request"@,
        control_text(18, 0) == "Addr-Reply"@,
        forall|kind: u8|
            kind > 18 || 4 <= kind <= 7 || 1 <= kind <= 2 ==> #[trigger] control_text(kind, 0)
                == "ICMP"@,
        code != 0 ==> forall|kind: u8| #[trigger]
            control_text(kind, code) == control_text(kind, 0) + "(c"@ + text::dec(code as nat)
                + ")"@,
{
}

} // verus!
