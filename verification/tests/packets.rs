//! Frames, packets and the protocols that they carry.

use vora_recon::arp::{
    build_arp_request, choose_interface, find_interface, pairs_string, read_arp_reply,
    read_neighbour, subnet_of, subnet_status, subnets_of, sweep_targets, InterfaceInfo, Neighbour,
};
use vora_recon::capture::{matches_filter, read_frame};
use vora_recon::dhcp::{
    find_client, parse_dhcp_hostname, accept_probe_reply, build_dhcp_inform, classify_dhcp, parse_dhcp_fingerprint, parse_option55,
    probe_xid,
};
use vora_recon::dns::{parse_dns_answers, read_dns_name, skip_dns_name};
use vora_recon::http::{parse_http_host, try_http_host};
use vora_recon::net::{v4, IpAddr};
use vora_recon::packet::{
    format_icmp_type_code, parse_packet, parse_tcp_flags, try_parse_packet, Protocol,
    ProtocolFilter,
};
use vora_recon::tls::{fnv1a_hash_u16, parse_tls_client_hello, sorted, try_tls_client_hello};

fn be16(n: u16) -> [u8; 2] {
    n.to_be_bytes()
}

fn ethernet(kind: u16, body: &[u8]) -> Vec<u8> {
    let mut f: Vec<u8> = vec![1, 2, 3, 4, 5, 6, 0xa0, 0xb1, 0xc2, 0xd3, 0xe4, 0xf5];
    f.extend_from_slice(&be16(kind));
    f.extend_from_slice(body);
    f
}

fn ip(protocol: u8, src: [u8; 4], dst: [u8; 4], body: &[u8]) -> Vec<u8> {
    let mut p: Vec<u8> = vec![0x45, 0];
    p.extend_from_slice(&be16(20 + body.len() as u16));
    p.extend_from_slice(&[0, 0, 0, 0, 64, protocol, 0, 0]);
    p.extend_from_slice(&src);
    p.extend_from_slice(&dst);
    p.extend_from_slice(body);
    p
}

fn tcp(src: u16, dst: u16, flags: u8, window: u16, body: &[u8]) -> Vec<u8> {
    let mut p: Vec<u8> = Vec::new();
    p.extend_from_slice(&be16(src));
    p.extend_from_slice(&be16(dst));
    p.extend_from_slice(&[0, 0, 0, 0, 0, 0, 0, 0, 0x50, flags]);
    p.extend_from_slice(&be16(window));
    p.extend_from_slice(&[0, 0, 0, 0]);
    p.extend_from_slice(body);
    p
}

fn udp(src: u16, dst: u16, body: &[u8]) -> Vec<u8> {
    let mut p: Vec<u8> = Vec::new();
    p.extend_from_slice(&be16(src));
    p.extend_from_slice(&be16(dst));
    p.extend_from_slice(&be16(8 + body.len() as u16));
    p.extend_from_slice(&[0, 0]);
    p.extend_from_slice(body);
    p
}

const HERE: [u8; 4] = [192, 168, 1, 5];
const THERE: [u8; 4] = [8, 8, 8, 8];

fn dns_name(name: &str) -> Vec<u8> {
    let mut v: Vec<u8> = Vec::new();
    for label in name.split('.') {
        v.push(label.len() as u8);
        v.extend_from_slice(label.as_bytes());
    }
    v.push(0);
    v
}

fn dns_reply() -> Vec<u8> {
    let mut d: Vec<u8> = vec![0, 1, 0x81, 0x80, 0, 1, 0, 3, 0, 0, 0, 0];
    d.extend_from_slice(&dns_name("www.example.com"));
    d.extend_from_slice(&[0, 1, 0, 1]);
    // An alias, then an address of each kind.
    d.extend_from_slice(&[0xc0, 12, 0, 5, 0, 1, 0, 0, 0, 9, 0, 2, 0xc0, 16]);
    d.extend_from_slice(&[0xc0, 12, 0, 1, 0, 1, 0, 0, 0, 9, 0, 4, 93, 184, 216, 34]);
    d.extend_from_slice(&[0xc0, 12, 0, 28, 0, 1, 0, 0, 0, 9, 0, 16]);
    d.extend_from_slice(&[0; 15]);
    d.push(7);
    d
}

#[test]
fn a_tcp_packet_is_read() {
    let f = ethernet(0x0800, &ip(6, HERE, THERE, &tcp(1000, 22, 0x12, 4096, b"x")));
    let p = parse_packet(&f, 77).unwrap();
    assert_eq!(p.timestamp, 77);
    assert_eq!(p.protocol, Protocol::Tcp);
    assert_eq!(p.src_ip, v4(192, 168, 1, 5));
    assert_eq!(p.dst_ip, v4(8, 8, 8, 8));
    assert_eq!((p.src_port, p.dst_port), (Some(1000), Some(22)));
    assert_eq!(p.size, f.len());
    assert_eq!(p.flags.as_deref(), Some("SYN+ACK"));
    assert_eq!((p.ttl, p.tcp_window), (Some(64), Some(4096)));
    assert!(p.payload.is_none() && p.process.is_none());
    assert!(p.domain_hint.is_none() && p.tls_fingerprint.is_none());
}

#[test]
fn a_dns_reply_is_read() {
    let f = ethernet(0x0800, &ip(17, THERE, HERE, &udp(53, 4000, &dns_reply())));
    let p = parse_packet(&f, 0).unwrap();
    assert_eq!(p.protocol, Protocol::Udp);
    let (name, ips) = p.dns_answers.unwrap();
    assert_eq!(name, "www.example.com");
    assert_eq!(ips, vec![v4(93, 184, 216, 34), IpAddr::V6(7)]);
    let other = ethernet(0x0800, &ip(17, THERE, HERE, &udp(54, 4000, &dns_reply())));
    assert!(parse_packet(&other, 0).unwrap().dns_answers.is_none());
}

#[test]
fn a_ping_is_read() {
    let f = ethernet(0x0800, &ip(1, HERE, THERE, &[8, 0, 0, 0]));
    let p = parse_packet(&f, 0).unwrap();
    assert_eq!(p.protocol, Protocol::Icmp);
    assert_eq!(p.flags.as_deref(), Some("Echo-Request"));
    assert_eq!((p.src_port, p.tcp_window), (None, None));
}

#[test]
fn other_frames_are_passed_over() {
    assert!(parse_packet(&[], 0).is_none());
    assert!(parse_packet(&ethernet(0x86dd, &[0; 40]), 0).is_none());
    assert!(parse_packet(&ethernet(0x0800, &[0; 19]), 0).is_none());
    assert!(parse_packet(&ethernet(0x0800, &ip(2, HERE, THERE, &[0; 8])), 0).is_none());
    assert!(parse_packet(&ethernet(0x0800, &ip(6, HERE, THERE, &[0; 19])), 0).is_none());
    assert!(parse_packet(&ethernet(0x0800, &ip(17, HERE, THERE, &[0; 7])), 0).is_none());
    assert!(matches!(try_parse_packet(&ethernet(0x0800, &ip(2, HERE, THERE, &[0; 8])), 0), Some(None)));
}

#[test]
fn tcp_flags_have_names() {
    assert_eq!(parse_tcp_flags(0x02), "SYN");
    assert_eq!(parse_tcp_flags(0x10), "ACK");
    assert_eq!(parse_tcp_flags(0x3f), "SYN+ACK+FIN+RST+PSH+URG");
    assert_eq!(parse_tcp_flags(0x00), "\u{2014}");
    assert_eq!(parse_tcp_flags(0xc0), "\u{2014}");
}

#[test]
fn ping_types_have_names() {
    assert_eq!(format_icmp_type_code(0, 0), "Echo-Reply");
    assert_eq!(format_icmp_type_code(3, 1), "Dest-Unreach(c1)");
    assert_eq!(format_icmp_type_code(18, 0), "Addr-Reply");
    assert_eq!(format_icmp_type_code(200, 5), "ICMP(c5)");
}

#[test]
fn protocols_have_names() {
    assert_eq!(Protocol::Tcp.to_text(), "TCP");
    assert_eq!(Protocol::Udp.to_text(), "UDP");
    assert_eq!(Protocol::Icmp.to_text(), "ICMP");
    assert_eq!(Protocol::Unknown(9).to_text(), "?(9)");
}

#[test]
fn names_of_dns_are_read() {
    let mut d = dns_name("a.bc");
    d.extend_from_slice(&[1, b'x', 0xc0, 0]);
    assert_eq!(read_dns_name(&d, 0), Some(("a.bc".to_string(), 6)));
    assert_eq!(read_dns_name(&d, 6), Some(("x.a.bc".to_string(), 10)));
    assert_eq!(skip_dns_name(&d, 6), Some(10));
    assert_eq!(read_dns_name(&[0], 0), None);
    assert_eq!(read_dns_name(&[5, b'a'], 0), None);
    assert_eq!(read_dns_name(&[0xc0, 0], 0), None);
    assert_eq!(skip_dns_name(&[3, 1, 2], 0), None);
    assert_eq!(read_dns_name(&[1, 0xff, 0], 0), None);
}

#[test]
fn dns_queries_tell_nothing() {
    let mut q = dns_reply();
    q[2] = 0x01;
    assert!(parse_dns_answers(&q).is_none());
    let mut none = dns_reply();
    none[7] = 0;
    assert!(parse_dns_answers(&none).is_none());
    assert!(parse_dns_answers(&[0; 11]).is_none());
    let whole = dns_reply();
    for n in 12..whole.len() {
        assert!(parse_dns_answers(&whole[..n]).is_none());
    }
    let mut few = dns_reply();
    few[7] = 2;
    assert_eq!(parse_dns_answers(&few).unwrap().1, vec![v4(93, 184, 216, 34)]);
}

fn hello(host: &str, tls13: bool) -> Vec<u8> {
    let mut ext: Vec<u8> = Vec::new();
    let h = host.as_bytes();
    ext.extend_from_slice(&[0, 0]);
    ext.extend_from_slice(&be16(5 + h.len() as u16));
    ext.extend_from_slice(&be16(3 + h.len() as u16));
    ext.push(0);
    ext.extend_from_slice(&be16(h.len() as u16));
    ext.extend_from_slice(h);
    ext.extend_from_slice(&[0x1a, 0x1a, 0, 0]);
    if tls13 {
        ext.extend_from_slice(&[0, 0x2b, 0, 3, 2, 3, 4]);
    }
    let mut ch: Vec<u8> = vec![3, 3];
    ch.extend_from_slice(&[0; 32]);
    ch.push(0);
    ch.extend_from_slice(&[0, 6, 0x13, 0x02, 0x13, 0x01, 0x2a, 0x2a]);
    ch.extend_from_slice(&[1, 0]);
    ch.extend_from_slice(&be16(ext.len() as u16));
    ch.extend_from_slice(&ext);
    let mut d: Vec<u8> = vec![0x16, 3, 1];
    d.extend_from_slice(&be16(4 + ch.len() as u16));
    d.extend_from_slice(&[1, 0]);
    d.extend_from_slice(&be16(ch.len() as u16));
    d.extend_from_slice(&ch);
    d
}

#[test]
fn a_tls_hello_is_read() {
    let (name, print) = parse_tls_client_hello(&hello("WWW.Example.com", true));
    assert_eq!(name.as_deref(), Some("www.example.com"));
    let expected = format!(
        "t13d0202_{}_{}",
        fnv1a_hash_u16(&[0x1301, 0x1302]),
        fnv1a_hash_u16(&[0, 0x2b])
    );
    assert_eq!(print, Some(expected));
    let (_, print) = parse_tls_client_hello(&hello("a", false));
    let expected = format!("t12d0201_{}_{}", fnv1a_hash_u16(&[0x1301, 0x1302]), fnv1a_hash_u16(&[0]));
    assert_eq!(print, Some(expected));
}

#[test]
fn a_tls_hello_that_is_cut_tells_nothing() {
    let whole = hello("example.com", true);
    for n in [0, 10, 42, whole.len() - 1] {
        assert_eq!(parse_tls_client_hello(&whole[..n]), (None, None));
    }
    let mut other = whole;
    other[0] = 0x17;
    assert_eq!(try_tls_client_hello(&other), Some((None, None)));
}

#[test]
fn a_tls_hello_is_read_from_a_frame() {
    let f = ethernet(0x0800, &ip(6, HERE, THERE, &tcp(1000, 443, 0x18, 1, &hello("a.b", true))));
    let p = parse_packet(&f, 0).unwrap();
    assert_eq!(p.domain_hint.as_deref(), Some("a.b"));
    assert!(p.tls_fingerprint.unwrap().starts_with("t13d0202_"));
}

#[test]
fn hashes_of_numbers() {
    assert_eq!(fnv1a_hash_u16(&[]), "9ce484222325");
    let mut hash: u64 = 0xcbf29ce484222325;
    for b in [0x13u8, 0x01] {
        hash = (hash ^ b as u64).wrapping_mul(0x100000001b3);
    }
    assert_eq!(fnv1a_hash_u16(&[0x1301]), format!("{:012x}", hash & 0xffff_ffff_ffff));
    assert_eq!(sorted(&vec![3, 1, 2, 1]), vec![1, 1, 2, 3]);
}

#[test]
fn the_host_of_a_request_is_read() {
    let r = b"GET / HTTP/1.1\r\nAccept: x\r\nhOsT: Example.com:8080\r\n\r\n";
    assert_eq!(parse_http_host(r).as_deref(), Some("example.com"));
    assert_eq!(parse_http_host(b"GETS / HTTP/1.1\r\nHost: a\r\n"), None);
    assert_eq!(parse_http_host(b"GET / HTTP/1.1\r\nHost:   \r\n"), None);
    assert_eq!(parse_http_host(b"GET / HTTP/1.1\r\n"), None);
    assert_eq!(try_http_host("GET /\r\nabcdé: x\r\nHost: a\r\n".as_bytes()), None);
    let mut far: Vec<u8> = b"GET / HTTP/1.1\r\nX: ".to_vec();
    far.extend_from_slice(&[b'a'; 512]);
    far.extend_from_slice(b"\r\nHost: late\r\n");
    assert_eq!(parse_http_host(&far), None);
}

#[test]
fn systems_are_told_by_their_options() {
    assert_eq!(classify_dhcp("1,3,6,15,31,33,43,44,46,47,119,121,249,252"), Some(("[Win]", "Windows 10/11")));
    assert_eq!(classify_dhcp(" 1,121,3,6,15,119,252 "), Some(("[Mac]", "macOS")));
    assert_eq!(classify_dhcp("1,121,3,6,15,119,252,95"), Some(("[Mac]", "macOS Ventura/Sonoma")));
    assert_eq!(classify_dhcp("1,3,6,15,26,28,51,58,59"), Some(("[And]", "Android")));
    assert_eq!(classify_dhcp("1,3,6"), Some(("[Net]", "Embedded/Router")));
    assert_eq!(classify_dhcp("9,9"), None);
}

#[test]
fn options_that_are_asked_for_are_read_back() {
    let m = build_dhcp_inform(0xc0a8_0105, [1, 2, 3, 4, 5, 6], 0xd0c0_0000);
    assert_eq!(m.len(), 260);
    assert_eq!(&m[0..8], &[1, 1, 6, 0, 0xd0, 0xc0, 0, 0]);
    assert_eq!(&m[12..16], &[192, 168, 1, 5]);
    assert_eq!(&m[28..34], &[1, 2, 3, 4, 5, 6]);
    let list = "1,3,6,15,31,33,43,44,46,47,119,121,249,252";
    assert_eq!(parse_option55(&m).as_deref(), Some(list));
    assert_eq!(parse_dhcp_fingerprint(&m).as_deref(), Some(list));
    let mut reply = m.clone();
    reply[0] = 2;
    assert_eq!(parse_dhcp_fingerprint(&reply), None);
    assert_eq!(parse_option55(&reply).as_deref(), Some(list));
    let mut other = m.clone();
    other[236] = 0;
    assert_eq!(parse_option55(&other), None);
    assert_eq!(parse_option55(&m[..239]), None);
    assert_eq!(probe_xid(3), 0xd0c0_0003);
    assert_eq!(accept_probe_reply(&reply, 1).as_deref(), Some(list));
    assert_eq!(accept_probe_reply(&reply, 0), None);
}

#[test]
fn options_are_read_from_a_frame() {
    let m = build_dhcp_inform(0xc0a8_0105, [1, 2, 3, 4, 5, 6], 1);
    let f = ethernet(0x0800, &ip(17, HERE, [255; 4], &udp(68, 67, &m)));
    let p = parse_packet(&f, 0).unwrap();
    assert_eq!(p.dhcp_fingerprint.as_deref(), Some("1,3,6,15,31,33,43,44,46,47,119,121,249,252"));
}

fn arp(op: u16, mac: [u8; 6], sender: [u8; 4], target: [u8; 4]) -> Vec<u8> {
    let mut a: Vec<u8> = vec![0, 1, 8, 0, 6, 4];
    a.extend_from_slice(&be16(op));
    a.extend_from_slice(&mac);
    a.extend_from_slice(&sender);
    a.extend_from_slice(&[0; 6]);
    a.extend_from_slice(&target);
    ethernet(0x0806, &a)
}

#[test]
fn hosts_are_overheard() {
    let mac = [2, 0, 0, 0, 0, 1];
    let seen = |f: &[u8]| read_frame(f, &ProtocolFilter::All, 0).unwrap().sighting;
    assert_eq!(seen(&arp(2, mac, HERE, THERE)), Some(("02:00:00:00:00:01".to_string(), v4(192, 168, 1, 5))));
    assert_eq!(seen(&arp(1, mac, HERE, THERE)), None);
    assert!(seen(&arp(1, mac, HERE, HERE)).is_some());
    assert_eq!(seen(&arp(2, [0; 6], HERE, THERE)), None);
    assert_eq!(seen(&arp(2, [255; 6], HERE, THERE)), None);
    assert_eq!(seen(&[0; 5]), None);
    let f = ethernet(0x0800, &ip(1, HERE, THERE, &[8, 0, 0, 0]));
    assert_eq!(seen(&f), Some(("A0:B1:C2:D3:E4:F5".to_string(), v4(192, 168, 1, 5))));
}

#[test]
fn packets_pass_a_filter() {
    let f = ethernet(0x0800, &ip(1, HERE, THERE, &[8, 0, 0, 0]));
    let p = parse_packet(&f, 0).unwrap();
    assert!(matches_filter(&p, &ProtocolFilter::All));
    assert!(matches_filter(&p, &ProtocolFilter::Icmp));
    assert!(!matches_filter(&p, &ProtocolFilter::Tcp));
    let r = read_frame(&f, &ProtocolFilter::Tcp, 0).unwrap();
    assert!(r.packet.is_none() && r.sighting.is_some());
    assert!(read_frame(&f, &ProtocolFilter::Icmp, 0).unwrap().packet.is_some());
}

#[test]
fn address_requests() {
    let f = build_arp_request([1, 2, 3, 4, 5, 6], 0xc0a8_0105, 0xc0a8_0109);
    assert_eq!(f.len(), 42);
    assert_eq!(&f[0..14], &[255, 255, 255, 255, 255, 255, 1, 2, 3, 4, 5, 6, 8, 6]);
    assert_eq!(&f[14..22], &[0, 1, 8, 0, 6, 4, 0, 1]);
    assert_eq!(&f[22..28], &[1, 2, 3, 4, 5, 6]);
    assert_eq!(&f[28..32], &[192, 168, 1, 5]);
    assert_eq!(&f[32..38], &[0; 6]);
    assert_eq!(&f[38..42], &[192, 168, 1, 9]);
    assert_eq!(read_arp_reply(&f), None);
    let r = arp(2, [2, 0, 0, 0, 0, 1], HERE, THERE);
    assert_eq!(read_arp_reply(&r), Some((v4(192, 168, 1, 5), "02:00:00:00:00:01".to_string())));
}

#[test]
fn subnets_and_their_hosts() {
    assert_eq!(subnet_of(0xc0a8_0105, 0xffff_ff00), (0xc0a8_0100, 0xc0a8_01ff));
    let two = subnets_of(&vec![(0xc0a8_0105, 0xffff_ff00), (0xc0a8_0106, 0xffff_ff00), (0x0a00_0001, 0xff00_0000)]);
    assert_eq!(two, vec![(0xc0a8_0100, 0xc0a8_01ff), (0xc0a8_0100, 0xc0a8_01ff), (0x0a00_0000, 0x0aff_ffff)]);
    assert!(sweep_targets(0x0a00_0000, 0x0aff_ffff).is_empty());
    let targets = sweep_targets(0xc0a8_0100, 0xc0a8_01ff);
    assert_eq!(targets.len(), 254);
    assert_eq!(targets[0], 0xc0a8_0101);
    assert_eq!(targets[253], 0xc0a8_01fe);
    assert_eq!(subnet_status(0, 2), "ARP Scanning Subnet 1/2...");
}

fn interface(name: &str, description: &str, loopback: bool, has_v4: bool) -> InterfaceInfo {
    InterfaceInfo { name: name.to_string(), description: description.to_string(), loopback, has_v4 }
}

#[test]
fn interfaces_are_found() {
    let list = vec![
        interface("lo", "", true, true),
        interface("eth0", "Ethernet", false, true),
        interface("wlan0", "Wi-Fi", false, true),
    ];
    assert_eq!(find_interface(&list, "wlan0"), Some(2));
    assert_eq!(choose_interface(&list, "eth0"), Some(1));
    assert_eq!(choose_interface(&list, "nothing"), Some(1));
    assert_eq!(choose_interface(&vec![interface("lo", "", true, true)], "x"), None);
}

#[test]
fn neighbours_are_read() {
    let n = |state: u32, mac: Vec<u8>| Neighbour { interface: 3, state, ip: v4(192, 168, 1, 9), mac };
    let mac = vec![2, 0, 0, 0, 0, 1];
    assert_eq!(pairs_string(&mac), "02:00:00:00:00:01");
    assert_eq!(read_neighbour(&n(2, mac.clone()), Some(3)).as_deref(), Some("02:00:00:00:00:01"));
    assert_eq!(read_neighbour(&n(2, mac.clone()), Some(4)), None);
    assert_eq!(read_neighbour(&n(1, mac.clone()), None), None);
    assert_eq!(read_neighbour(&n(4, vec![]), None), None);
    assert_eq!(read_neighbour(&n(4, vec![255; 6]), None), None);
    assert_eq!(read_neighbour(&n(4, vec![1, 0, 0x5e, 0, 0, 1]), None), None);
    let far = Neighbour { interface: 3, state: 2, ip: v4(8, 8, 8, 8), mac };
    assert_eq!(read_neighbour(&far, None), None);
}

fn hello_of(suites: &[u16], kinds: &[u16]) -> Vec<u8> {
    let mut ch: Vec<u8> = vec![3, 3];
    ch.extend_from_slice(&[0; 32]);
    ch.push(0);
    ch.extend_from_slice(&be16(2 * suites.len() as u16));
    for s in suites {
        ch.extend_from_slice(&be16(*s));
    }
    ch.extend_from_slice(&[1, 0]);
    ch.extend_from_slice(&be16(4 * kinds.len() as u16));
    for k in kinds {
        ch.extend_from_slice(&be16(*k));
        ch.extend_from_slice(&[0, 0]);
    }
    let mut d: Vec<u8> = vec![0x16, 3, 1];
    d.extend_from_slice(&be16(4 + ch.len() as u16));
    d.extend_from_slice(&[1, 0]);
    d.extend_from_slice(&be16(ch.len() as u16));
    d.extend_from_slice(&ch);
    d
}

#[test]
fn fingerprints_do_not_depend_on_order() {
    let (_, a) = parse_tls_client_hello(&hello_of(&[0x1301, 0x1302, 0xc02b], &[10, 11, 35]));
    let (_, b) = parse_tls_client_hello(&hello_of(&[0x0a0a, 0xc02b, 0x1302, 0x1301], &[35, 0xfafa, 10, 11]));
    let (_, c) = parse_tls_client_hello(&hello_of(&[0x1301, 0x1302], &[10, 11, 35]));
    assert!(a.is_some());
    assert_eq!(a, b);
    assert_ne!(a, c);
}

fn request_for_address(options: &[u8]) -> Vec<u8> {
    let mut d: Vec<u8> = vec![0; 236];
    d[0] = 1;
    d.extend_from_slice(&[99, 130, 83, 99, 53, 1, 3]);
    d.extend_from_slice(options);
    d.push(255);
    d
}

#[test]
fn clients_name_themselves() {
    let own = request_for_address(&[12, 4, b'l', b'a', b'm', b'p']);
    assert_eq!(parse_dhcp_hostname(&own).as_deref(), Some("lamp"));
    assert_eq!(find_client(&own, 0), None);
    assert_eq!(find_client(&own, 7), Some(IpAddr::V4(7)));
    let asked = request_for_address(&[50, 4, 192, 168, 1, 9, 12, 6, b' ', b'l', b'a', b'm', b'p', b' ']);
    assert_eq!(parse_dhcp_hostname(&asked).as_deref(), Some("lamp"));
    assert_eq!(find_client(&asked, 0), Some(v4(192, 168, 1, 9)));
    assert_eq!(parse_dhcp_hostname(&request_for_address(&[12, 1, 0xff])), None);
    assert_eq!(parse_dhcp_hostname(&request_for_address(&[12, 2, b' ', b' '])), None);
    assert_eq!(parse_dhcp_hostname(&request_for_address(&[12, 200, b'a'])), None);
    assert_eq!(parse_dhcp_hostname(&request_for_address(&[55, 1, 3])), None);
    let mut reply = own.clone();
    reply[0] = 2;
    assert_eq!(parse_dhcp_hostname(&reply), None);

    let f = ethernet(0x0800, &ip(17, HERE, [255, 255, 255, 255], &udp(68, 67, &own)));
    let r = read_frame(&f, &ProtocolFilter::Tcp, 1).unwrap();
    assert!(r.packet.is_none());
    assert_eq!(r.client, Some(("lamp".to_string(), v4(HERE[0], HERE[1], HERE[2], HERE[3]))));
    let f = ethernet(0x0800, &ip(17, [0, 0, 0, 0], [255, 255, 255, 255], &udp(68, 67, &asked)));
    assert_eq!(read_frame(&f, &ProtocolFilter::All, 1).unwrap().client, Some(("lamp".to_string(), v4(192, 168, 1, 9))));
    let f = ethernet(0x0800, &ip(17, HERE, THERE, &udp(67, 68, &own)));
    assert_eq!(read_frame(&f, &ProtocolFilter::All, 1).unwrap().client, None);
}

#[test]
fn more_options_keep_the_tag() {
    for (list, tag) in [
        ("1,3,6,15,31,33,43,44,46,47", "[Win]"),
        ("1,15,3,6,44,46,47", "[Win]"),
        ("1,121,3,6,15,119,252,95", "[iOS]"),
        ("1,3,6,15,26,28", "[And]"),
        ("1,28,2,3,15,6", "[Lin]"),
        ("1,3,6,12,15,17", "[Lin]"),
    ] {
        for rest in ["", " ", "7", "119,12,44,47,26,121,42", "44,46,47", "x"] {
            assert_eq!(classify_dhcp(&format!("{list},{rest}")).unwrap().0, tag);
        }
    }
}
