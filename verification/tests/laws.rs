//! Laws of the library on concrete values.

use vora_recon::board::{DetailsBoard, DeviceBoard};
use vora_recon::bytes::{push16, push32, read16, read32};
use vora_recon::flows::ConnKey;
use vora_recon::mdns::{read_mdns_name, reverse_queries};
use vora_recon::net::{ip_string, is_local_ip, is_private_ip, octets, parse_v4, v4, IpAddr};
use vora_recon::packet::{CapturedPacket, Protocol};
use vora_recon::pairing::{list_devices, try_note_pairs};
use vora_recon::process::ProcessCache;
use vora_recon::scan::{see_device, Moment};
use vora_recon::state::{AppState, FEED_LIMIT};
use vora_recon::text::{dec_text, parse_u8};
use vora_recon::watch::CONTACTS;

const SECOND: u64 = 1_000_000_000;

fn state() -> AppState {
    AppState::new("eth0".to_string(), "net".to_string(), None, 0)
}

fn here() -> IpAddr {
    v4(192, 168, 1, 5)
}

fn there() -> IpAddr {
    v4(93, 184, 216, 34)
}

fn packet(src: IpAddr, dst: IpAddr) -> CapturedPacket {
    CapturedPacket {
        timestamp: 0,
        protocol: Protocol::Tcp,
        src_ip: src,
        dst_ip: dst,
        src_port: Some(5000),
        dst_port: Some(443),
        size: 10,
        flags: None,
        payload: None,
        ttl: None,
        tcp_window: None,
        dns_answers: None,
        domain_hint: None,
        tls_fingerprint: None,
        dhcp_fingerprint: None,
        process: None,
    }
}

#[test]
fn numbers_are_read_as_they_were_written() {
    let mut v: Vec<u8> = vec![9];
    push32(&mut v, 0x0102_0304);
    push16(&mut v, 0xfffe);
    v.push(7);
    assert_eq!((read32(&v, 1), read16(&v, 5)), (0x0102_0304, 0xfffe));
    for n in 0..=255u64 {
        assert_eq!(parse_u8(&dec_text(n)), Some(n as u8));
    }
    assert_eq!(parse_u8("256"), None);
}

#[test]
fn addresses_and_their_bytes() {
    assert_eq!(octets(0xc0a8_0105), [192, 168, 1, 5]);
    assert_eq!(v4(192, 168, 1, 5), IpAddr::V4(0xc0a8_0105));
    for ip in [here(), v4(10, 0, 0, 1), v4(172, 16, 0, 1), v4(169, 254, 3, 4), v4(127, 0, 0, 1)] {
        assert!(!is_private_ip(&ip) || is_local_ip(&ip));
        assert_eq!(parse_v4(&ip_string(&ip)), Some(ip));
    }
    assert!(ip_string(&v4(255, 255, 255, 255)).len() <= 15);
    assert!(ip_string(&IpAddr::V6(u128::MAX)).len() <= 39);
}

#[test]
fn reverse_names_hold_the_address_backwards() {
    let q = reverse_queries(&vec![here()]);
    assert_eq!(q.len(), 1);
    let (name, _) = read_mdns_name(&q[0], 12).unwrap();
    assert_eq!(name, "5.1.168.192.in-addr.arpa");
}

#[test]
fn guesses_are_confirmed() {
    let mut s = state();
    let mut p = packet(here(), there());
    p.ttl = Some(128);
    s.update_os_fingerprint(&p);
    s.update_os_fingerprint(&p);
    assert_eq!(*s.names.os_fingerprints.get(&here()).unwrap(), ("[Win]", 2));
    p.ttl = Some(64);
    s.update_os_fingerprint(&p);
    assert_eq!(*s.names.os_fingerprints.get(&here()).unwrap(), ("[Win]", 2));
    let other = v4(192, 168, 1, 6);
    p.src_ip = other;
    p.tcp_window = Some(65535);
    s.update_os_fingerprint(&p);
    assert_eq!(*s.names.os_fingerprints.get(&other).unwrap(), ("[Mac]", 1));
    assert_eq!(*s.names.os_fingerprints.get(&here()).unwrap(), ("[Win]", 2));
    p.src_ip = there();
    s.update_os_fingerprint(&p);
    assert!(s.names.os_fingerprints.get(&there()).is_none());
    s.names.dhcp_fingerprints.insert(here(), "1,121,3,6,15,119,252".to_string());
    let by_options = s.get_resolved_os_tag(&here());
    assert_ne!(by_options, "[Win]");
    assert!(by_options.starts_with('['));
}

#[test]
fn other_connections_stay_as_they_are() {
    let mut s = state();
    s.ingest_packet(&packet(here(), there()), 1, 0);
    s.ingest_packet(&packet(here(), v4(8, 8, 8, 8)), 2, 0);
    let key = |dst: IpAddr| ConnKey { src: here(), dst, port: Some(443) };
    assert_eq!(s.flows.connections.get(&key(there())).unwrap().packets, 1);
    assert_eq!(s.flows.connections.get(&key(v4(8, 8, 8, 8))).unwrap().packets, 1);
    assert!(s.flows.unique_ips.contains(&there()) && s.flows.unique_ips.contains(&here()));
}

#[test]
fn pairs_of_one_batch_are_noted_both() {
    let now = Moment { steady: 0, unix: 0 };
    let d = |mac: &str| see_device(mac.to_string(), "Acme".to_string(), "h".to_string(), now);
    let mut b = DeviceBoard::new();
    b.insert(v4(192, 168, 1, 1), d("AA:BB:CC:00:02:00"));
    b.insert(v4(192, 168, 1, 2), d("AA-BB-CC-00-00-00"));
    b.insert(v4(192, 168, 1, 3), d("AA:BB:CC:00:04:01"));
    let mut details = DetailsBoard::new();
    assert!(try_note_pairs(&mut details, &list_devices(&b)));
    assert!(details.details(&v4(192, 168, 1, 1)).get("note").is_some());
    assert!(details.details(&v4(192, 168, 1, 2)).get("note").is_some());
    assert!(details.details(&v4(192, 168, 1, 3)).get("note").is_none());
}

#[test]
fn devices_share_a_prefix() {
    let now = Moment { steady: 0, unix: 0 };
    let d = || see_device("m".to_string(), "v".to_string(), "h".to_string(), now);
    let mut s = state();
    assert_eq!(s.get_common_prefix_v4(), "");
    s.devices.active_discovery.insert(v4(192, 168, 1, 5), d());
    assert_eq!(s.get_common_prefix_v4(), "");
    s.devices.active_discovery.insert(v4(192, 168, 1, 77), d());
    assert_eq!(s.get_common_prefix_v4(), "192.168.1.");
    s.devices.active_discovery.insert(v4(192, 168, 9, 77), d());
    s.devices.active_discovery.insert(there(), d());
    assert_eq!(s.get_common_prefix_v4(), "192.168.");
}

#[test]
fn ports_of_protocols_are_told_apart() {
    let mut c = ProcessCache::new();
    c.insert(53, &Protocol::Udp, "dns".to_string());
    assert_eq!(c.get(53, &Protocol::Udp).as_deref(), Some("dns"));
    assert_eq!(c.get(53, &Protocol::Tcp), None);
    assert_eq!(c.get(54, &Protocol::Udp), None);
    assert_eq!(c.get(53, &Protocol::Unknown(17)), None);
}

#[test]
fn what_is_remembered_is_bounded() {
    let mut s = state();
    for i in 0..(FEED_LIMIT as u64 + 5) {
        s.ingest_packet(&packet(here(), there()), i * 5 * SECOND, 0);
    }
    assert_eq!(s.feeds.feed_tcp.len(), FEED_LIMIT);
    assert_eq!(s.counters.total_packets, FEED_LIMIT as u64 + 5);
    assert_eq!(s.counters.tcp_count + s.counters.udp_count + s.counters.icmp_count, s.counters.total_packets);
    assert_eq!(s.watch.connection_intervals.get(&(here(), there())).unwrap().len(), CONTACTS);
}
