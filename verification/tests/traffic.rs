//! What packets do to the state of the monitor.

use vora_recon::alerts::{Alert, AlertFilter, AlertLevel, AlertLog, AlertReason, AlertTier};
use vora_recon::flows::ConnKey;
use vora_recon::geoip::GeoInfo;
use vora_recon::net::{ip_string, v4, IpAddr};
use vora_recon::packet::{CapturedPacket, Protocol};
use vora_recon::process::{local_port, refresh_process_cache, system_process, ProcessCache};
use vora_recon::state::AppState;
use vora_recon::traffic::{classify_device_type, Counters, TrafficProfile, HISTORY};

const SECOND: u64 = 1_000_000_000;

fn state() -> AppState {
    AppState::new("eth0".to_string(), "net".to_string(), None, 0)
}

fn packet(protocol: Protocol, src: IpAddr, dst: IpAddr, src_port: Option<u16>, dst_port: Option<u16>) -> CapturedPacket {
    CapturedPacket {
        timestamp: 0,
        protocol,
        src_ip: src,
        dst_ip: dst,
        src_port,
        dst_port,
        size: 100,
        flags: None,
        payload: None,
        ttl: None,
        tcp_window: None,
        dns_answers: None,
        domain_hint: None,
        tls_fingerprint: None,
        dhcp_fingerprint: None,
        process: None,
    }
}

fn here() -> IpAddr {
    v4(192, 168, 1, 5)
}

fn there() -> IpAddr {
    v4(93, 184, 216, 34)
}

fn take(s: &mut AppState, p: &CapturedPacket, now: u64) {
    assert!(s.has_room(p, now));
    s.ingest_packet(p, now, 1234);
}

#[test]
fn packets_are_counted() {
    let mut s = state();
    take(&mut s, &packet(Protocol::Tcp, here(), there(), Some(5000), Some(443)), 1);
    take(&mut s, &packet(Protocol::Udp, here(), there(), Some(5000), Some(443)), 2);
    take(&mut s, &packet(Protocol::Icmp, here(), there(), None, None), 3);
    take(&mut s, &packet(Protocol::Unknown(5), here(), there(), None, None), 4);
    let c = &s.counters;
    assert_eq!((c.tcp_count, c.udp_count, c.icmp_count, c.total_packets), (1, 1, 1, 4));
    assert_eq!((c.total_bytes, c.current_second_bytes, c.current_second_packets), (400, 400, 4));
    assert_eq!(s.flows.dest_bytes.get(&there()), Some(&400));
    assert_eq!(s.flows.unique_ips.len(), 2);
    assert_eq!(s.flows.src_packet_counts.get(&here()), Some(&4));
    assert_eq!(s.flows.pair_packet_counts.get(&(here(), there())), Some(&4));
    assert_eq!(s.flows.edge_first_seen.get(&(here(), there())), Some(&1));
    assert_eq!(s.flows.edge_last_seen.get(&(here(), there())), Some(&4));
    assert_eq!(s.flows.connections.len(), 2);
    assert_eq!(s.feeds.feed_tcp.len(), 1);
    assert_eq!(s.feeds.feed_udp.len(), 1);
    assert_eq!(s.feeds.feed_icmp.len(), 1);
}

#[test]
fn noise_is_passed_over() {
    let mut s = state();
    take(&mut s, &packet(Protocol::Udp, here(), v4(224, 0, 0, 251), Some(1), Some(5353)), 1);
    take(&mut s, &packet(Protocol::Udp, v4(192, 168, 1, 0), here(), Some(1), Some(2)), 1);
    assert_eq!(s.counters.total_packets, 0);
    assert_eq!(s.flows.unique_ips.len(), 0);
}

#[test]
fn connections_keep_their_program_and_age() {
    let mut s = state();
    s.process_cache.insert(5000, &Protocol::Tcp, "curl.exe".to_string());
    let mut p = packet(Protocol::Tcp, here(), there(), Some(5000), Some(443));
    take(&mut s, &p, SECOND);
    p.process = Some("other.exe".to_string());
    take(&mut s, &p, 3 * SECOND);
    let key = ConnKey { src: here(), dst: there(), port: Some(443) };
    let c = s.flows.connections.get(&key).unwrap();
    assert_eq!((c.packets, c.bytes, c.duration), (2, 200, 2 * SECOND));
    assert_eq!(c.process.as_deref(), Some("curl.exe"));
    let last = s.flows.node_last_seen_details.get(&here()).unwrap();
    assert_eq!((last.0.as_str(), last.1.as_str()), ("TCP", "curl.exe"));
}

#[test]
fn a_program_that_was_unknown_is_filled_in() {
    let mut s = state();
    let mut p = packet(Protocol::Tcp, here(), there(), Some(5000), Some(443));
    take(&mut s, &p, 1);
    let key = ConnKey { src: here(), dst: there(), port: Some(443) };
    assert_eq!(s.flows.connections.get(&key).unwrap().process.as_deref(), Some("unknown"));
    p.process = Some("late.exe".to_string());
    take(&mut s, &p, 2);
    assert_eq!(s.flows.connections.get(&key).unwrap().process.as_deref(), Some("late.exe"));
}

#[test]
fn names_come_from_answers_and_hints() {
    let mut s = state();
    let mut p = packet(Protocol::Udp, v4(8, 8, 8, 8), here(), Some(53), Some(4000));
    p.dns_answers = Some(("example.com".to_string(), vec![there()]));
    take(&mut s, &p, 1);
    assert_eq!(s.names.dns_cache.get(&there()).unwrap(), "example.com");
    assert_eq!(s.get_display_hostname(&there()), "example.com");
    let mut q = packet(Protocol::Tcp, here(), there(), Some(1), Some(443));
    q.domain_hint = Some("hint.com".to_string());
    q.tls_fingerprint = Some("t13".to_string());
    take(&mut s, &q, 2);
    take(&mut s, &q, 3);
    assert_eq!(s.names.dns_cache.get(&there()).unwrap(), "example.com");
    let tls = s.names.tls_fingerprints.get(&here()).unwrap();
    assert_eq!((tls.0.as_str(), tls.1), ("t13", 2));
}

#[test]
fn a_first_contact_outside_is_told_once() {
    let mut s = state();
    let p = packet(Protocol::Tcp, here(), there(), Some(5000), Some(443));
    take(&mut s, &p, 1);
    take(&mut s, &p, 2);
    take(&mut s, &packet(Protocol::Tcp, here(), there(), Some(5000), Some(80)), 3);
    assert_eq!(s.alerts.total, 1);
    let a = &s.alerts.external[0];
    assert_eq!(a.message, "Outbound \u{2192} 93.184.216.34:443 (unknown)");
    assert_eq!((a.level, a.tier, a.reason), (AlertLevel::Info, AlertTier::External, AlertReason::OutboundPublic));
    assert_eq!(a.timestamp, 1234);
}

#[test]
fn contacts_of_known_makers_are_noise() {
    let mut s = state();
    s.names.geo_cache.insert(there(), GeoInfo {
        country_code: "US".to_string(),
        city: Some("Dallas".to_string()),
        region: Some("TX".to_string()),
        org: "Cloudflare, Inc".to_string(),
    });
    take(&mut s, &packet(Protocol::Tcp, here(), there(), Some(5000), Some(443)), 1);
    assert_eq!(s.alerts.noise[0].message, "Outbound \u{2192} 93.184.216.34:443 [Dallas, TX] (unknown)");
}

#[test]
fn trusted_services_raise_nothing() {
    let mut s = state();
    take(&mut s, &packet(Protocol::Tcp, here(), v4(208, 95, 112, 1), Some(5000), Some(80)), 1);
    s.names.dns_cache.insert(there(), "x.malwarebytes.com".to_string());
    take(&mut s, &packet(Protocol::Tcp, here(), there(), Some(5000), Some(443)), 2);
    assert_eq!(s.alerts.total, 0);
    assert_eq!(s.feeds.feed_tcp.len(), 0);
}

#[test]
fn a_silenced_address_raises_nothing() {
    let mut s = state();
    s.whitelist_ip(there());
    let mut p = packet(Protocol::Tcp, here(), there(), Some(5000), Some(3389));
    p.flags = Some("SYN+FIN".to_string());
    take(&mut s, &p, 1);
    assert_eq!(s.alerts.total, 0);
    assert_eq!(s.feeds.feed_tcp.len(), 0);
    assert_eq!(s.counters.total_packets, 1);
}

#[test]
fn odd_flags_are_told() {
    let near = v4(192, 168, 1, 9);
    let told = |flags: &str| {
        let mut s = state();
        let mut p = packet(Protocol::Tcp, here(), near, Some(5000), Some(5001));
        p.flags = Some(flags.to_string());
        take(&mut s, &p, 1);
        s.alerts.suspicious.iter().map(|a| a.message.clone()).collect::<Vec<String>>()
    };
    assert_eq!(told("SYN+FIN"), vec!["Illegal flags SYN+FIN from 192.168.1.5 (possible OS fingerprint) (unknown)"]);
    assert_eq!(told("SYN+PSH"), vec!["Illegal flags SYN+PSH from 192.168.1.5 (data before handshake) (unknown)"]);
    assert_eq!(told("\u{2014}"), vec!["NULL scan from 192.168.1.5 \u{2014} no TCP flags set (unknown)"]);
    assert_eq!(told("FIN+PSH+URG"), vec!["Xmas scan from 192.168.1.5 \u{2014} FIN+PSH+URG (unknown)"]);
    assert!(told("SYN+ACK").is_empty());
    assert!(told("SYN+ACK+PSH").is_empty());
}

#[test]
fn sensitive_ports_are_told() {
    let mut s = state();
    take(&mut s, &packet(Protocol::Tcp, here(), there(), Some(5000), Some(23)), 1);
    assert_eq!(s.alerts.suspicious[0].message, "Outbound Telnet (23) \u{2192} 93.184.216.34 (unknown)");
    assert_eq!(s.alerts.suspicious[0].reason, AlertReason::SensitivePort);
    take(&mut s, &packet(Protocol::Tcp, there(), here(), Some(5000), Some(80)), 2);
    assert_eq!(s.alerts.suspicious[1].message, "Inbound on port 80 from 93.184.216.34 (unknown)");
    assert_eq!(s.alerts.suspicious[1].reason, AlertReason::InboundExternal);
    take(&mut s, &packet(Protocol::Tcp, there(), here(), Some(5000), Some(1024)), 3);
    assert_eq!(s.alerts.suspicious.len(), 2);
}

#[test]
fn much_traffic_is_told_once() {
    let near = v4(192, 168, 1, 9);
    let mut s = state();
    let p = packet(Protocol::Tcp, here(), near, Some(5000), Some(5001));
    for i in 0..499 {
        take(&mut s, &p, i);
    }
    assert_eq!(s.alerts.total, 0);
    for i in 0..10 {
        take(&mut s, &p, 500 + i);
    }
    assert_eq!(s.alerts.total, 1);
    assert_eq!(s.alerts.behavioral[0].message, "High volume: 192.168.1.5 \u{2192} 192.168.1.9 exceeded 500 packets");
}

#[test]
fn discovery_is_noise() {
    let near = v4(192, 168, 1, 9);
    let mut s = state();
    take(&mut s, &packet(Protocol::Udp, here(), near, Some(5000), Some(137)), 1);
    assert_eq!(s.alerts.noise[0].message, "Local discovery: UDP 192.168.1.5 \u{2192} 192.168.1.9 port 137");
    take(&mut s, &packet(Protocol::Udp, here(), near, Some(67), None), 1);
    assert_eq!(s.alerts.noise[1].message, "Local discovery: UDP 192.168.1.5 \u{2192} 192.168.1.9 port ---");
}

#[test]
fn floods_of_answers_are_told() {
    let mut s = state();
    let p = packet(Protocol::Udp, there(), here(), Some(53), Some(40000));
    for _ in 0..5 {
        take(&mut s, &p, SECOND);
    }
    assert!(s.alerts.suspicious.is_empty());
    take(&mut s, &p, SECOND);
    take(&mut s, &p, SECOND);
    assert_eq!(s.alerts.suspicious.len(), 1);
    assert_eq!(
        s.alerts.suspicious[0].message,
        "DNS FLOOD DETECTED: 93.184.216.34 is sending abnormal DNS responses (possible poisoning attempt)"
    );
    let mut slow = state();
    for i in 0..20 {
        take(&mut slow, &p, SECOND + i * 400_000_000);
    }
    assert!(slow.alerts.suspicious.is_empty());
}

#[test]
fn beacons_are_told() {
    let p = packet(Protocol::Tcp, here(), there(), Some(5000), Some(443));
    let mut s = state();
    for i in 0..6 {
        take(&mut s, &p, 1 + i * 10 * SECOND);
    }
    assert_eq!(s.alerts.behavioral.len(), 1);
    assert_eq!(
        s.alerts.behavioral[0].message,
        "BEACON DETECTED: 192.168.1.5 -> 93.184.216.34 \u{2014} regular interval ~10s (possible C2 heartbeat)"
    );
    let mut uneven = state();
    for (i, t) in [0u64, 5, 45, 50, 90, 95].iter().enumerate() {
        take(&mut uneven, &p, 1 + i as u64 + t * SECOND);
    }
    assert!(uneven.alerts.behavioral.is_empty());
    let mut fast = state();
    for i in 0..6 {
        take(&mut fast, &p, 1 + i * 4 * SECOND);
    }
    assert!(fast.alerts.behavioral.is_empty());
    let mut trusted = state();
    trusted.process_cache.insert(5000, &Protocol::Tcp, "Chrome.EXE".to_string());
    for i in 0..6 {
        take(&mut trusted, &p, 1 + i * 10 * SECOND);
    }
    assert!(trusted.alerts.behavioral.is_empty());
}

#[test]
fn scans_of_ports_are_told() {
    let mut s = state();
    for port in 0..25u16 {
        take(&mut s, &packet(Protocol::Tcp, there(), here(), Some(5000), Some(2000 + port)), 1);
    }
    assert!(s.alerts.suspicious.is_empty());
    take(&mut s, &packet(Protocol::Tcp, there(), here(), Some(5000), Some(3000)), 1);
    assert_eq!(
        s.alerts.suspicious[0].message,
        "PORT SCAN DETECTED: 93.184.216.34 is probing 26 unique ports (possible reconnaissance)"
    );
    take(&mut s, &packet(Protocol::Tcp, there(), here(), Some(5000), Some(3001)), 1);
    assert_eq!(s.alerts.suspicious.len(), 1);
}

#[test]
fn nodes_follow_the_traffic() {
    let mut s = state();
    take(&mut s, &packet(Protocol::Tcp, here(), there(), Some(5000), Some(443)), 7);
    assert_eq!(s.graph.graph_nodes.get(&there()).unwrap().last_seen, 7);
    assert!(s.graph.graph_nodes.get(&here()).unwrap().pinned);
    assert!(!s.graph.graph_nodes.get(&there()).unwrap().pinned);
}

#[test]
fn systems_are_guessed_from_packets() {
    let mut s = state();
    let mut p = packet(Protocol::Tcp, here(), there(), Some(5000), Some(443));
    p.ttl = Some(128);
    p.tcp_window = Some(65535);
    take(&mut s, &p, 1);
    assert_eq!(s.names.os_fingerprints.get(&here()).unwrap().0, "[Win]");
}

#[test]
fn profiles_tell_kinds_of_devices() {
    let mut p = TrafficProfile::new(0);
    p.upload_bytes = 10;
    assert_eq!(classify_device_type(&p), None);
    let mut s = state();
    take(&mut s, &packet(Protocol::Tcp, here(), there(), Some(5000), Some(443)), 1);
    let profile = s.traffic_profiles.get(&here()).unwrap();
    assert_eq!((profile.upload_bytes, profile.tcp_packets, profile.unique_dsts.len()), (100, 1, 1));
    assert_eq!(profile.port_counts.get(&443), Some(&1));
    take(&mut s, &packet(Protocol::Tcp, here(), there(), Some(5000), Some(443)), 62 * SECOND);
    assert_eq!(s.traffic_profiles.get(&here()).unwrap().upload_bytes, 100);
}

fn alert(tier: AlertTier, text: &str) -> Alert {
    Alert {
        timestamp: 0,
        message: text.to_string(),
        level: AlertLevel::Warn,
        tier,
        remote_ip: None,
        process: None,
        reason: AlertReason::HighVolume,
    }
}

#[test]
fn alerts_are_kept_by_tier() {
    let mut log = AlertLog::new();
    for i in 0..2001 {
        log.push(alert(AlertTier::Noise, &format!("n{}", i)));
    }
    log.push(alert(AlertTier::Suspicious, "from 10.0.0.1"));
    assert_eq!(log.noise.len(), 2000);
    assert_eq!(log.noise[0].message, "n1");
    assert_eq!(log.noise[1999].message, "n2000");
    assert_eq!((log.total, log.total_noise, log.total_suspicious), (2002, 2001, 1));
    assert_eq!(log.shown(AlertFilter::All), 2001);
    assert_eq!(log.shown(AlertFilter::Suspicious), 1);
    log.drop_text("10.0.0.1");
    assert_eq!(log.suspicious.len(), 0);
    log.clear();
    assert_eq!(log.shown(AlertFilter::All), 0);
}

#[test]
fn seconds_are_recorded() {
    let mut c = Counters::new(0);
    c.add_packet(&Protocol::Tcp, 500);
    c.tick(SECOND / 2);
    assert_eq!((c.bytes_history.len(), c.current_second_bytes), (0, 500));
    c.tick(SECOND);
    assert_eq!(c.bytes_history.back(), Some(&500));
    assert_eq!((c.packets_per_sec, c.current_second_bytes, c.current_second_packets), (1, 0, 0));
    for i in 2..60 {
        c.tick(i * SECOND);
    }
    assert_eq!(c.bytes_history.len(), HISTORY);
}

#[test]
fn programs_are_remembered_by_port() {
    let mut cache = ProcessCache::new();
    assert_eq!(cache.get(80, &Protocol::Tcp), None);
    let rows = vec![(80, Some("a.exe".to_string())), (81, None), (82, Some("b.exe".to_string()))];
    refresh_process_cache(&mut cache, Protocol::Tcp, &rows);
    assert_eq!(cache.get(80, &Protocol::Tcp).as_deref(), Some("a.exe"));
    assert_eq!(cache.get(80, &Protocol::Udp), None);
    assert_eq!(cache.get(81, &Protocol::Tcp), None);
    assert!(cache.contains(82, &Protocol::Tcp));
    cache.insert(80, &Protocol::Tcp, "c.exe".to_string());
    assert_eq!(cache.get(80, &Protocol::Tcp).as_deref(), Some("c.exe"));
    assert_eq!(local_port(0x5000), 80);
    assert_eq!(system_process(4).as_deref(), Some("System"));
    assert_eq!(system_process(1000), None);
    assert_eq!(ip_string(&here()), "192.168.1.5");
}

#[test]
fn the_most_common_client_is_kept() {
    let mut s = state();
    let mut p = packet(Protocol::Tcp, here(), there(), Some(1), Some(443));
    let mut now = 1;
    let mut kept = |print: &str| {
        p.tls_fingerprint = Some(print.to_string());
        take(&mut s, &p, now);
        now += 1;
        let t = s.names.tls_fingerprints.get(&here()).unwrap();
        (t.0.clone(), t.1)
    };
    assert_eq!(kept("a"), ("a".to_string(), 1));
    assert_eq!(kept("b"), ("a".to_string(), 2));
    assert_eq!(kept("b"), ("b".to_string(), 3));
    assert_eq!(kept("a"), ("b".to_string(), 4));
    assert_eq!(kept("a"), ("a".to_string(), 5));
    assert_eq!(kept("c"), ("a".to_string(), 6));
    assert_eq!(*s.names.tls_counts.get(&here()).unwrap().get(&"b".to_string()).unwrap(), 2);
}

#[test]
fn control_messages_from_outside_are_told() {
    let mut s = state();
    let mut p = packet(Protocol::Icmp, there(), here(), None, None);
    p.flags = Some("Echo-Request (0)".to_string());
    take(&mut s, &p, 1);
    let a = &s.alerts.suspicious[0];
    assert_eq!(a.message, "ICMP Echo-Request (0) from 93.184.216.34");
    assert_eq!((a.level, a.tier, a.reason), (AlertLevel::Warn, AlertTier::Suspicious, AlertReason::InboundExternal));
    assert_eq!(a.remote_ip, Some(there()));
    assert_eq!(s.alerts.suspicious.len(), 1);
    let mut s = state();
    take(&mut s, &packet(Protocol::Icmp, v4(192, 168, 1, 9), here(), None, None), 1);
    take(&mut s, &packet(Protocol::Icmp, v4(169, 254, 1, 9), here(), None, None), 2);
    take(&mut s, &packet(Protocol::Icmp, here(), there(), None, None), 3);
    assert_eq!(s.alerts.suspicious.len(), 0);
}

#[test]
fn feeds_hold_their_protocol_in_order() {
    let mut s = state();
    for i in 0..2003u64 {
        let mut p = packet(Protocol::Tcp, here(), there(), Some(5000), Some(443));
        p.timestamp = i;
        take(&mut s, &p, i);
        if i % 2 == 0 {
            p.protocol = Protocol::Udp;
            take(&mut s, &p, i);
        }
    }
    let (tcp, udp) = (&s.feeds.feed_tcp, &s.feeds.feed_udp);
    assert_eq!((tcp.len(), udp.len(), s.feeds.feed_icmp.len()), (2000, 1002, 0));
    assert!(tcp.iter().all(|(_, p)| p.protocol == Protocol::Tcp));
    assert!(udp.iter().all(|(_, p)| p.protocol == Protocol::Udp));
    assert_eq!(tcp.iter().map(|(t, _)| *t).collect::<Vec<u64>>(), (3..2003).collect::<Vec<u64>>());
}

#[test]
fn no_tier_holds_more_than_was_counted() {
    let mut s = state();
    for i in 0..4 {
        let ip = v4(93, 184, 216, i + 1);
        take(&mut s, &packet(Protocol::Tcp, here(), ip, Some(5000), Some(443)), 1);
    }
    take(&mut s, &packet(Protocol::Icmp, there(), here(), None, None), 2);
    let a = &s.alerts;
    assert_eq!((a.total, a.total_external, a.total_suspicious, a.total_behavioral, a.total_noise), (5, 4, 1, 0, 0));
    assert_eq!((a.external.len(), a.suspicious.len()), (4, 1));
    s.whitelist_ip(v4(93, 184, 216, 2));
    assert_eq!((s.alerts.external.len(), s.alerts.total_external, s.alerts.total), (3, 4, 5));
    s.clear_alerts();
    assert_eq!((s.alerts.external.len(), s.alerts.total_external, s.alerts.total), (0, 4, 5));
}
