//! Keys, panels, the graph and the report.

use vora_recon::alerts::{Alert, AlertFilter, AlertLevel, AlertReason, AlertTier};
use vora_recon::detail::detail_area;
use vora_recon::device::{DeviceDetails, DeviceInfo};
use vora_recon::drawing::{crop_icon, logo_text};
use vora_recon::flows::{Conn, ConnKey};
use vora_recon::geoip::GeoInfo;
use vora_recon::net::{v4, IpAddr};
use vora_recon::packet::{CapturedPacket, Protocol, ProtocolFilter};
use vora_recon::panels::{alert_line, no_alerts_line, Tone};
use vora_recon::radar::{is_ip_before, key_addresses, sorted_ips};
use vora_recon::report::{format_session, is_inside, reported_count, tally_of, ReportTexts};
use vora_recon::scan::{see_device, Moment};
use vora_recon::screen::host_address;
use vora_recon::session::{
    command_of, current_network, is_public_ip_heuristic, label_of, network_name, pick_interface,
    report_file_name, scan_alert, CaptureInterface, Command, KeyCode, Press,
};
use vora_recon::state::{AppState, DiscoveryFilter, InputMode, Panel};
use vora_recon::table::{KeySet, Table};
use vora_recon::vendor::VendorList;

const SECOND: u64 = 1_000_000_000;

fn state() -> AppState {
    AppState::new("eth0".to_string(), "net".to_string(), None, 0)
}

fn here() -> IpAddr {
    v4(192, 168, 1, 5)
}

fn there() -> IpAddr {
    v4(93, 184, 216, 34)
}

fn packet(src: IpAddr, dst: IpAddr, size: usize) -> CapturedPacket {
    CapturedPacket {
        timestamp: 0,
        protocol: Protocol::Tcp,
        src_ip: src,
        dst_ip: dst,
        src_port: Some(5000),
        dst_port: Some(443),
        size,
        flags: Some("ACK".to_string()),
        payload: None,
        ttl: None,
        tcp_window: None,
        dns_answers: None,
        domain_hint: None,
        tls_fingerprint: None,
        dhcp_fingerprint: None,
        process: None,
    }
}

fn device(mac: &str, vendor: &str, host: &str) -> DeviceInfo {
    see_device(mac.to_string(), vendor.to_string(), host.to_string(), Moment { steady: 0, unix: 0 })
}

fn press(key: KeyCode) -> Press {
    Press { key, alt: false, control: false }
}

fn message(s: &AppState) -> &str {
    s.ui.footer_message.as_ref().unwrap().0.as_str()
}

fn alert(tier: AlertTier, at: u64, text: &str) -> Alert {
    Alert {
        timestamp: at,
        message: text.to_string(),
        level: AlertLevel::Warn,
        tier,
        remote_ip: Some(there()),
        process: None,
        reason: AlertReason::HighVolume,
    }
}

#[test]
fn keys_have_commands() {
    let n = |c: char| command_of(&InputMode::Normal, press(KeyCode::Char(c)));
    assert_eq!(n('p'), Command::TogglePause);
    assert_eq!(n('P'), Command::TogglePause);
    assert_eq!(n('f'), Command::NextFilter);
    assert_eq!(n('C'), Command::ClearAlerts);
    assert_eq!(n('g'), Command::ToggleGraph);
    assert_eq!(n('e'), Command::BeginExport);
    assert_eq!(n('w'), Command::BeginWhitelist);
    assert_eq!(n('i'), Command::ToggleShort);
    assert_eq!(n(' '), Command::Resume);
    assert_eq!(n('a'), Command::ToggleRescan);
    assert_eq!(n('n'), Command::NextNode);
    assert_eq!((n('q'), n('Q')), (Command::Quit, Command::Quit));
    assert_eq!(n('s'), Command::Nothing);
    assert_eq!(n('z'), Command::Nothing);
    let alt = Press { key: KeyCode::Char('S'), alt: true, control: false };
    assert_eq!(command_of(&InputMode::Normal, alt), Command::Scan);
    assert_eq!(command_of(&InputMode::Normal, press(KeyCode::Tab)), Command::NextPanel);
    assert_eq!(command_of(&InputMode::Normal, press(KeyCode::Up)), Command::ScrollUp);
    assert_eq!(command_of(&InputMode::Normal, press(KeyCode::Down)), Command::ScrollDown);
    assert_eq!(command_of(&InputMode::Normal, press(KeyCode::Esc)), Command::ClearNode);
    assert_eq!(command_of(&InputMode::Normal, press(KeyCode::Enter)), Command::Nothing);
}

#[test]
fn keys_type_while_text_is_asked_for() {
    let m = InputMode::Whitelisting;
    assert_eq!(command_of(&m, press(KeyCode::Char('p'))), Command::Type('p'));
    assert_eq!(command_of(&m, press(KeyCode::Esc)), Command::Cancel);
    assert_eq!(command_of(&m, press(KeyCode::Enter)), Command::Submit);
    assert_eq!(command_of(&m, press(KeyCode::Backspace)), Command::Erase);
    assert_eq!(command_of(&m, press(KeyCode::Tab)), Command::Nothing);
    assert_eq!(command_of(&m, press(KeyCode::Char('q'))), Command::Type('q'));
    for c in ['a', 'u', 'w', 'x', 'X'] {
        let p = Press { key: KeyCode::Char(c), alt: false, control: true };
        assert_eq!(command_of(&InputMode::Exporting, p), Command::ClearInput);
    }
    let p = Press { key: KeyCode::Char('b'), alt: false, control: true };
    assert_eq!(command_of(&m, p), Command::Type('b'));
}

#[test]
fn switches_and_their_messages() {
    let mut s = state();
    s.toggle_pause();
    assert!(s.ui.paused);
    s.toggle_graph();
    assert!(s.graph.show_graph);
    s.toggle_short(7);
    assert!(!s.ui.ip_compressed);
    assert_eq!(s.ui.footer_message.as_ref().unwrap(), &("IP Compression: OFF".to_string(), 7));
    s.toggle_short(8);
    assert_eq!(message(&s), "IP Compression: ON");
    let before = s.ui.auto_scan_enabled;
    s.toggle_rescan(9);
    assert_ne!(s.ui.auto_scan_enabled, before);
    assert_eq!(message(&s), if before { "Auto-Rescan: PAUSED" } else { "Auto-Rescan: ENABLED (3m)" });
    s.begin_scan(10);
    assert!(s.ui.scan_has_run);
    assert_eq!(s.ui.last_auto_scan, 10);
    assert_eq!(message(&s), "Manual Scan Triggered...");
}

#[test]
fn text_is_typed() {
    let mut s = state();
    s.begin_export("C:/r".to_string());
    assert_eq!(s.ui.input_mode, InputMode::Exporting);
    s.type_char('é');
    assert_eq!(s.ui.input_buffer, "C:/ré");
    s.erase_char();
    s.erase_char();
    assert_eq!(s.ui.input_buffer, "C:/");
    assert_eq!(s.footer_status(0), " Save report to: C:/_");
    assert_eq!(s.footer_keys(), " [Enter] Confirm   [Esc] Cancel ");
    assert_eq!(s.end_input(), "C:/");
    assert_eq!(s.ui.input_mode, InputMode::Normal);
    assert_eq!(s.ui.input_buffer, "");
    s.erase_char();
    s.begin_whitelist();
    s.type_char('1');
    s.clear_input();
    assert_eq!(s.ui.input_buffer, "");
    s.report_saved("x.txt", None, 1);
    assert_eq!(message(&s), "Report saved to x.txt");
    s.report_saved("x.txt", Some("denied"), 1);
    assert_eq!(message(&s), "Failed to save report: denied");
    assert_eq!(report_file_name("20250102_030405"), "VORA_Session_Report_20250102_030405.txt");
}

#[test]
fn addresses_are_silenced() {
    let mut s = state();
    s.push_alert(alert(AlertTier::External, 0, "Outbound to 93.184.216.34"));
    s.push_alert(alert(AlertTier::External, 0, "other"));
    s.submit_whitelist(None, 1);
    assert_eq!(message(&s), "Invalid IP address format");
    assert_eq!(s.alerts.external.len(), 2);
    s.submit_whitelist(Some(there()), 2);
    assert_eq!(message(&s), "Whitelisted IP: 93.184.216.34");
    assert!(s.whitelist.contains(&there()));
    assert_eq!(s.alerts.external.len(), 1);
    s.clear_alerts();
    assert_eq!(s.alerts.shown(AlertFilter::All), 0);
}

#[test]
fn scans_run_by_themselves() {
    let mut s = state();
    s.ui.auto_scan_enabled = true;
    assert!(!s.take_rescan(1000 * SECOND));
    s.begin_scan(1000 * SECOND);
    assert!(!s.take_rescan(1179 * SECOND));
    assert!(s.take_rescan(1180 * SECOND));
    assert_eq!(s.ui.last_auto_scan, 1180 * SECOND);
    assert!(!s.take_rescan(1181 * SECOND));
    assert_eq!(s.ui.auto_scan_status(1181 * SECOND), " (Auto-Rescan in 179s)");
    s.ui.auto_scan_enabled = false;
    assert!(!s.take_rescan(9000 * SECOND));
    assert_eq!(s.ui.auto_scan_status(0), " (Auto-Rescan: PAUSED)");
}

#[test]
fn nodes_are_chosen_in_turn() {
    let mut s = state();
    s.graph.show_graph = true;
    s.next_node();
    assert_eq!(s.graph.selected_node, None);
    assert!(s.has_room(&packet(here(), there(), 1), 0));
    s.ingest_packet(&packet(here(), there(), 1), 0, 0);
    s.ingest_packet(&packet(v4(10, 0, 0, 1), there(), 1), 0, 0);
    let mut seen: Vec<IpAddr> = Vec::new();
    for _ in 0..3 {
        s.next_node();
        seen.push(s.graph.selected_node.unwrap());
    }
    assert_eq!(seen, vec![v4(10, 0, 0, 1), there(), here()]);
    s.next_node();
    assert_eq!(s.graph.selected_node, Some(v4(10, 0, 0, 1)));
    s.clear_node();
    assert_eq!(s.graph.selected_node, None);
    s.graph.show_graph = false;
    s.next_node();
    assert_eq!(s.graph.selected_node, None);
    assert_eq!(key_addresses(&s.graph.graph_nodes), vec![v4(10, 0, 0, 1), there(), here()]);
}

#[test]
fn addresses_have_an_order() {
    assert!(is_ip_before(&v4(10, 0, 0, 1), &v4(192, 0, 0, 1)));
    assert!(is_ip_before(&v4(255, 0, 0, 1), &IpAddr::V6(0)));
    assert!(!is_ip_before(&IpAddr::V6(1), &IpAddr::V6(1)));
    assert_eq!(sorted_ips(&vec![there(), IpAddr::V6(1), v4(1, 1, 1, 1)]), vec![v4(1, 1, 1, 1), there(), IpAddr::V6(1)]);
}

#[test]
fn places_are_asked_for_sparingly() {
    assert!(is_public_ip_heuristic(&there()));
    assert!(!is_public_ip_heuristic(&here()));
    assert!(!is_public_ip_heuristic(&IpAddr::V6(1)));
    for ip in [
        v4(169, 254, 1, 1),
        v4(10, 0, 0, 1),
        v4(127, 0, 0, 1),
        v4(224, 0, 0, 1),
        v4(255, 255, 255, 255),
        v4(0, 1, 2, 3),
        v4(100, 64, 0, 1),
        v4(100, 127, 255, 255),
        v4(240, 0, 0, 1),
    ] {
        assert!(!is_public_ip_heuristic(&ip), "{ip:?}");
    }
    assert!(is_public_ip_heuristic(&v4(100, 63, 0, 1)) && is_public_ip_heuristic(&v4(100, 128, 0, 1)));
    assert!(is_public_ip_heuristic(&v4(172, 32, 0, 1)) && is_public_ip_heuristic(&v4(1, 1, 1, 1)));
    let mut s = state();
    assert!(!s.want_place(here()));
    assert!(s.want_place(there()));
    assert!(!s.want_place(there()));
    assert_eq!(s.names.geo_cache.get(&there()).unwrap().org, "Looking up...");
    for i in 0..4 {
        assert!(s.want_place(v4(8, 8, 8, i)));
    }
    assert!(!s.want_place(v4(9, 9, 9, 9)));
    assert_eq!(s.ui.geo_in_flight, 5);
    s.take_place(there(), None);
    let g = s.names.geo_cache.get(&there()).unwrap();
    assert_eq!((g.country_code.as_str(), g.org.as_str()), ("??", "Unknown"));
    assert_eq!(s.ui.geo_in_flight, 4);
    assert!(!s.want_place(there()));
    assert!(s.want_place(v4(9, 9, 9, 9)));
    let place = GeoInfo { country_code: "US".to_string(), city: None, region: None, org: "Org".to_string() };
    s.take_place(v4(9, 9, 9, 9), Some(place));
    assert_eq!(s.names.geo_cache.get(&v4(9, 9, 9, 9)).unwrap().org, "Org");
}

#[test]
fn hosts_that_are_overheard_are_noted() {
    let mut s = state();
    let list = VendorList::parse("00-1A-2B   (hex)\t\tAcme Corp\n");
    let at = Moment { steady: 5, unix: 6 };
    assert!(s.devices.overhear("00:1A:2B:00:00:01", here(), &list, at));
    let d = s.devices.passive_discovery.get(&here()).unwrap();
    assert_eq!((d.vendor.as_str(), d.hostname.as_str(), d.last_seen, d.last_seen_unix), ("Acme Corp", "\u{2014}", 5, 6));
    assert!(s.devices.overhear("other", here(), &list, Moment { steady: 9, unix: 10 }));
    let d = s.devices.passive_discovery.get(&here()).unwrap();
    assert_eq!((d.mac.as_str(), d.last_seen, d.last_seen_unix), ("00:1A:2B:00:00:01", 9, 10));
    assert!(s.devices.overhear("00:1A:2B:00:00:01", there(), &list, at));
    assert!(s.devices.passive_discovery.get(&there()).is_none());
    assert!(!s.devices.overhear("aaaaaé", v4(192, 168, 1, 9), &list, at));
}

#[test]
fn clients_tell_their_system() {
    let mut s = state();
    let mut p = packet(here(), v4(192, 168, 1, 1), 1);
    p.dhcp_fingerprint = Some("1,121,3,6,15,119,252".to_string());
    s.names.take_dhcp(&p);
    assert_eq!(s.names.dhcp_fingerprints.get(&here()).unwrap(), "1,121,3,6,15,119,252");
    assert_eq!(s.names.os_fingerprints.get(&here()).unwrap(), &("[Mac]", 200));
    p.dhcp_fingerprint = Some("1,3,6".to_string());
    s.names.take_dhcp(&p);
    assert_eq!(s.names.os_fingerprints.get(&here()).unwrap().0, "[Mac]");
    assert_eq!(s.names.dhcp_fingerprints.get(&here()).unwrap(), "1,3,6");
    p.src_ip = v4(0, 0, 0, 0);
    s.names.take_dhcp(&p);
    assert!(s.names.dhcp_fingerprints.get(&v4(0, 0, 0, 0)).is_none());
}

#[test]
fn captured_packets_are_taken() {
    let mut s = state();
    let mut p = packet(here(), there(), 10);
    p.dhcp_fingerprint = Some("1,3,6".to_string());
    assert_eq!(s.take_packet(&p, 1, 2), Some(vec![there()]));
    assert_eq!(s.take_packet(&p, 1, 2), Some(vec![]));
    assert_eq!(s.counters.total_packets, 2);
    assert_eq!(s.names.dhcp_fingerprints.get(&here()).unwrap(), "1,3,6");
    assert_eq!(s.take_packet(&packet(v4(8, 8, 8, 8), v4(9, 9, 9, 9), 1), 1, 2), Some(vec![v4(9, 9, 9, 9), v4(8, 8, 8, 8)]));
    s.toggle_pause();
    assert_eq!(s.take_packet(&packet(here(), v4(7, 7, 7, 7), 1), 1, 2), Some(vec![]));
    assert_eq!(s.counters.total_packets, 3);
    s.toggle_pause();
    s.counters.total_packets = u64::MAX;
    assert_eq!(s.take_packet(&p, 1, 2), None);
    assert_eq!(s.counters.total_packets, u64::MAX);
}

#[test]
fn interfaces_are_chosen() {
    let i = |name: &str, description: &str, loopback: bool, has_address: bool| CaptureInterface {
        name: name.to_string(),
        description: description.to_string(),
        loopback,
        has_address,
    };
    let list = vec![
        i("\\Device\\NPF_Loopback", "Loopback", false, true),
        i("\\Device\\NPF_{1}", "Ethernet", false, true),
        i("\\Device\\NPF_{2}", "Intel Wi-Fi 6", false, false),
        i("\\Device\\NPF_{3}", "A Wireless LAN", false, true),
        i("eth0", "Wi-Fi", false, true),
    ];
    assert_eq!(pick_interface(&list), Some(3));
    assert_eq!(pick_interface(&list[..3].iter().map(|x| i(&x.name, &x.description, x.loopback, x.has_address)).collect()), Some(1));
    assert_eq!(pick_interface(&vec![i("eth0", "Wi-Fi", false, true)]), None);
    assert_eq!(label_of(&list, "\\Device\\NPF_{1}"), "Ethernet");
    assert_eq!(label_of(&list, "nothing"), "nothing");
    assert_eq!(label_of(&vec![i("eth0", "", false, true)], "eth0"), "eth0");
    assert_eq!(network_name(Some(" Home \n"), "eth0"), "Home");
    assert_eq!(network_name(Some("\n"), "eth0"), "eth0");
    assert_eq!(network_name(None, "eth0"), "eth0");
    assert_eq!(current_network(Some(b" Home\xff\r\n"), "eth0"), "Home\u{fffd}");
    assert_eq!(current_network(Some(b"\r\n"), "eth0"), "eth0");
    assert_eq!(current_network(None, "eth0"), "eth0");
    let ifaces = vec![("lo".to_string(), vec![v4(127, 0, 0, 1)]), ("eth0".to_string(), vec![IpAddr::V6(1), here()])];
    assert_eq!(host_address(&ifaces, "eth0"), Some(here()));
}

#[test]
fn small_events() {
    let mut s = state();
    s.ui.take_scan_status("Done".to_string(), "12:00".to_string());
    assert_eq!((s.ui.discovery_status.as_str(), s.ui.last_discovery_time.as_str()), ("Done", "12:00"));
    s.ui.count_packets(9, Some(10));
    assert!(!s.ui.limit_reached);
    s.ui.count_packets(10, Some(10));
    assert!(s.ui.limit_reached);
    s.ui.lose_capture();
    assert!(s.ui.capture_error.as_ref().unwrap().starts_with("Capture thread exited"));
    assert_eq!(s.ui.feed_title(), " Live Feed [ALL] | ERR: Capture thread exited (check interface name / admin privileges) ");
    let a = scan_alert("x".to_string(), 3);
    assert_eq!((a.tier, a.level, a.timestamp), (AlertTier::Suspicious, AlertLevel::Warn, 3));
    let mut t: Table<IpAddr, DeviceInfo> = Table::new();
    let mut fresh = state();
    fresh.adopt_devices(Table::new());
    assert!(!fresh.ui.scan_has_run);
    t.insert(here(), device("m", "v", "h"));
    fresh.adopt_devices(t);
    assert!(fresh.ui.scan_has_run);
    assert_eq!(fresh.devices.active_discovery.len(), 1);
}

#[test]
fn filters_and_panels_go_round() {
    let mut s = state();
    assert_eq!(s.ui.focused_panel, Panel::Feed);
    s.cycle_filter();
    assert_eq!(s.ui.display_filter, ProtocolFilter::Tcp);
    for _ in 0..3 {
        s.cycle_filter();
    }
    assert_eq!(s.ui.display_filter, ProtocolFilter::All);
    s.switch_panel();
    assert_eq!(s.ui.focused_panel, Panel::Alerts);
    s.cycle_filter();
    assert_eq!(s.ui.alert_filter, AlertFilter::Suspicious);
    s.switch_panel();
    s.cycle_filter();
    assert_eq!(s.ui.discovery_filter, DiscoveryFilter::Named);
    s.switch_panel();
    assert_eq!(s.ui.focused_panel, Panel::Feed);
}

#[test]
fn panels_are_scrolled() {
    let mut s = state();
    for _ in 0..3 {
        s.ingest_packet(&packet(here(), there(), 1), 0, 0);
    }
    s.scroll_up();
    assert!(s.feeds.feed_paused_scroll);
    assert_eq!(s.feeds.feed_scroll, 1);
    s.ingest_packet(&packet(here(), there(), 1), 0, 0);
    assert_eq!(s.feeds.feed_scroll, 2);
    s.scroll_down();
    assert_eq!(s.feeds.feed_scroll, 1);
    s.resume_scroll();
    assert!(!s.feeds.feed_paused_scroll);
    assert_eq!(s.feeds.feed_scroll, 0);
}

#[test]
fn packets_have_lines() {
    let mut s = state();
    let p = packet(here(), there(), 60);
    assert_eq!(
        s.try_packet_line(&p, "", "12:00:00").unwrap(),
        format!("[12:00:00]  {:<4} {:<21}  \u{2192}  {:<26}  {:<14} {}B", "TCP", "192.168.1.5:5000", "93.184.216.34:HTTPS", "ACK", 60)
    );
    s.names.dns_cache.insert(there(), "example.com".to_string());
    assert!(s.try_packet_line(&p, "", "t").unwrap().contains("93.184.216.34:HTTPS (example.com)"));
    s.ingest_packet(&p, 5, 0);
    let (rows, _) = s.feeds.visible(&ProtocolFilter::All, 10);
    assert_eq!(rows.len(), 1);
    assert_eq!(s.feeds.packet_at(&ProtocolFilter::All, rows[0]).size, 60);
}

#[test]
fn connections_have_lines() {
    let mut s = state();
    let key = ConnKey { src: here(), dst: there(), port: Some(443) };
    let conn = Conn { packets: 1500, bytes: 2048, process: None, duration: 61 * SECOND };
    assert_eq!(
        s.connection_line(&key, &conn, "curl.exe"),
        format!(" {:<15} \u{2192} {:<21} \u{2014} curl.exe \u{2014} 1,500 pkts, 2.0KB (1m1s)", "192.168.1.5", "93.184.216.34")
    );
    assert_eq!(s.most_active_host(), "---");
    s.ingest_packet(&packet(here(), there(), 10), 0, 0);
    s.ingest_packet(&packet(here(), v4(8, 8, 8, 8), 20), 0, 0);
    assert_eq!(s.most_active_host(), "192.168.1.5");
    assert_eq!(s.connections_summary("x"), " 2 active connections  |  3 unique IPs seen  |  most active: x");
    assert_eq!(s.flows.busiest_connections(1), vec![1]);
}

#[test]
fn alerts_have_lines() {
    let (text, tone) = alert_line(&alert(AlertTier::Behavioral, 0, "m"), "12:00");
    assert_eq!((text.as_str(), tone), (" [12:00] [~] m", Tone::Warning));
    assert_eq!(no_alerts_line(&AlertFilter::Noise), " No alerts matching filter [NOISE]");
    let mut s = state();
    s.push_alert(alert(AlertTier::Noise, 20, "late"));
    s.push_alert(alert(AlertTier::Suspicious, 30, "last"));
    s.push_alert(alert(AlertTier::External, 10, "early"));
    assert_eq!(s.alerts.title(&AlertFilter::All), " Alerts [ALL] (Total: 3) ");
    let rows = s.alerts.visible(&AlertFilter::All, 10);
    let shown: Vec<&str> = rows.iter().map(|i| s.alerts.alert_at(&AlertFilter::All, *i).message.as_str()).collect();
    assert_eq!(shown, vec!["early", "late", "last"]);
}

#[test]
fn statistics_and_footer() {
    let mut s = state();
    assert_eq!(s.counters.stats_text(3661), "Total: 0\nUptime: 01:01:01\nAvg Sz: 0B\nPps:   0");
    s.ingest_packet(&packet(here(), there(), 1000), 0, 0);
    assert_eq!(s.footer_status(0), " Capturing on eth0  |  Network: net  |  1 packets  |  0B/sec");
    s.set_footer_message("hi".to_string(), 0);
    assert_eq!(s.footer_status(SECOND), " \u{2714} hi");
    assert!(s.footer_status(2 * SECOND).starts_with(" Capturing"));
    assert!(s.try_tick(SECOND));
    assert_eq!(s.counters.last_rate(), 1000);
    assert_eq!(s.counters.chart_top(), 1000);
    assert_eq!(s.counters.chart_labels(), ("0".to_string(), "500B".to_string(), "1000B".to_string()));
    assert!(s.footer_keys().ends_with("[F] Protocol: ALL  [W] Whitelist IP  [I] Full IPs "));
}

#[test]
fn devices_have_lines() {
    let mut s = state();
    let rows = s.device_panel(&vec![], "", 20, 80, Moment { steady: 0, unix: 0 });
    assert_eq!(rows[0].0, format!(" TOTAL: 0 Devices Found{}", s.ui.auto_scan_status(0)));
    s.ui.scan_has_run = true;
    s.devices.active_discovery.insert(here(), device("00:1A:2B:00:00:01", "Acme", "den"));
    s.devices.active_discovery.insert(v4(192, 168, 1, 7), device("00:1A:2B:00:00:02", "Unknown", "\u{2014}"));
    let ips = s.shown_devices();
    assert_eq!(ips, vec![v4(192, 168, 1, 7), here()]);
    let rows = s.device_panel(&ips, "192.168.1.", 20, 200, Moment { steady: 0, unix: 0 });
    assert!(rows[1].0.starts_with(" 5 "));
    s.ui.ip_compressed = false;
    let rows = s.device_panel(&ips, "192.168.1.", 20, 200, Moment { steady: 0, unix: 0 });
    assert!(rows[1].0.starts_with(" 192.168.1.5 "));
    assert!(rows[1].0.contains("00:1A:2B:00:00:01  den"));
    assert!(rows[1].0.ends_with(" Acme"));
    s.ui.discovery_filter = DiscoveryFilter::Unknown;
    assert_eq!(s.shown_devices(), vec![v4(192, 168, 1, 7)]);
    s.ui.discovery_filter = DiscoveryFilter::Named;
    assert_eq!(s.shown_devices(), vec![here()]);
    assert_eq!(s.get_common_prefix_v4(), "");
    s.ui.ip_compressed = true;
    assert_eq!(s.get_common_prefix_v4(), "192.168.1.");
    assert!(s.ui.devices_title(1, 0).starts_with(" Local Discovery [NAMED] (Total: 1) "));
}

#[test]
fn hosts_have_names_and_systems() {
    let mut s = state();
    assert_eq!(s.get_display_hostname(&here()), "192.168.1.5");
    s.devices.passive_discovery.insert(here(), device("m", "v", "heard"));
    assert_eq!(s.get_display_hostname(&here()), "heard");
    let mut d = DeviceDetails { services: KeySet::new(), properties: Table::new() };
    d.set("model", "Box 3");
    s.devices.device_metadata.insert(here(), d);
    assert_eq!(s.get_display_hostname(&here()), "Box 3");
    s.devices.active_discovery.insert(here(), device("m", "v", "found"));
    assert_eq!(s.get_display_hostname(&here()), "found");
    s.names.dns_cache.insert(here(), "named".to_string());
    assert_eq!(s.get_display_hostname(&here()), "named");
    s.names.os_fingerprints.insert(there(), ("[Lin]", 10));
    assert_eq!(s.get_resolved_os_tag(&there()), "[Lin]");
    assert_eq!(s.get_resolved_os_tag(&v4(8, 8, 8, 8)), "[?]");
    assert!(s.try_short_label(&here()).is_some());
}

#[test]
fn nodes_have_looks_and_details() {
    let mut s = state();
    s.ingest_packet(&packet(here(), there(), 1000), 10 * SECOND, 0);
    let look = s.node_look(&there(), 10 * SECOND);
    assert_eq!((look.sign.as_str(), look.tone, look.chosen), ("\u{25c9}", Tone::Normal, false));
    s.graph.selected_node = Some(there());
    let look = s.node_look(&there(), 60 * SECOND);
    assert_eq!((look.sign.as_str(), look.tone, look.label_tone), ("\u{25ba}\u{25cf}\u{25c4}", Tone::Warning, Tone::Muted));
    s.push_alert(alert(AlertTier::Suspicious, 0, "x"));
    assert_eq!(s.node_look(&there(), 60 * SECOND).tone, Tone::Danger);
    assert_eq!(AppState::host_label(&here()), "192.168.1.5 [HOST]");
    assert_eq!(s.node_packets(&there()), Some(1));
    assert_eq!(s.last_packet(&there(), 12 * SECOND), Some(2 * SECOND));
    let lines = s.node_detail(&there(), 12 * SECOND, 1, Some("2.0"));
    assert!(lines.iter().any(|l| l.0.contains("93.184.216.34")));
    let (x, w, h) = detail_area(0, 100, 50, 5);
    assert!(w <= 38 && h <= 50 && x <= 100);
}

#[test]
fn the_graph_keeps_busy_nodes() {
    let mut s = AppState::new("eth0".to_string(), "net".to_string(), Some(here()), 0);
    s.ingest_packet(&packet(here(), there(), 1000), SECOND, 0);
    s.ingest_packet(&packet(here(), v4(8, 8, 8, 8), 10), SECOND, 0);
    s.ingest_packet(&packet(here(), v4(192, 168, 1, 9), 10), SECOND, 0);
    s.ingest_packet(&packet(here(), v4(192, 168, 1, 7), 600), SECOND, 0);
    assert!(s.try_tick(2 * SECOND));
    assert!(s.graph.positioned_nodes.is_empty());
    s.toggle_graph();
    assert!(s.try_tick(2 * SECOND));
    assert_eq!(s.graph.positioned_nodes, vec![v4(192, 168, 1, 7), v4(8, 8, 8, 8), there()]);
    s.graph.graph_tick = 30;
    assert!(s.sweep_hit(there()));
    s.graph.graph_tick = 50;
    assert!(!s.sweep_hit(there()));
    s.graph.graph_tick = 71;
    assert!(s.sweep_hit(there()));
    assert!(s.try_tick(40 * SECOND));
    assert!(s.graph.graph_nodes.get(&there()).is_none());
    assert!(s.graph.graph_nodes.get(&here()).is_some());
}

#[test]
fn drawings() {
    assert_eq!(crop_icon("\n  ab \r\n\u{2800}\u{2800}\u{2800}c\n\n"), vec!["ab", "\u{2800}c"]);
    assert_eq!(crop_icon(""), vec!["[HOST]"]);
    let logo = logo_text(20);
    let lines: Vec<&str> = logo.split('\n').collect();
    assert_eq!(lines.len(), 4 + 10 + 1);
    assert_eq!(lines[3], "");
    assert_eq!(lines[4], " ");
    assert_eq!(lines[5], "  _    ______  ____  ___           ");
    assert_eq!(lines[13], " /_/ |_/_____/\\____/\\____/_/ |_/   ");
}

#[test]
fn tallies() {
    let list: Vec<String> = ["a", "b", "a", "c", "a", "b"].iter().map(|s| s.to_string()).collect();
    let t = tally_of(&list);
    assert_eq!(t, vec![("a".to_string(), 3), ("b".to_string(), 2), ("c".to_string(), 1)]);
}

#[test]
fn sessions_have_a_length() {
    assert_eq!(format_session(60), "60s");
    assert_eq!(format_session(61), "1m 1s");
    assert_eq!(format_session(3600), "60m 0s");
    assert_eq!(format_session(3661), "1h 1m 1s");
    assert!(is_inside(&v4(169, 254, 1, 1)) && is_inside(&v4(127, 0, 0, 1)) && is_inside(&IpAddr::V6(1)));
    assert!(!is_inside(&there()) && !is_inside(&IpAddr::V6(2)));
}

#[test]
fn a_session_is_reported() {
    let mut s = state();
    s.ingest_packet(&packet(here(), there(), 2048), SECOND, 5);
    s.ingest_packet(&packet(here(), v4(8, 8, 8, 8), 4096), SECOND, 6);
    s.names.dns_cache.insert(there(), "example.com".to_string());
    s.names.os_fingerprints.insert(here(), ("[Win]", 10));
    s.devices.active_discovery.insert(here(), device("00:1A:2B:00:00:01", "Acme", "den"));
    let mut d = DeviceDetails { services: KeySet::new(), properties: Table::new() };
    d.set("model", "Box 3");
    d.set("serial", "S1");
    d.set("category", "[PC]");
    s.devices.take_baseline();
    s.devices.active_discovery.insert(v4(192, 168, 1, 6), device("00:1A:2B:00:00:02", "Acme", "attic"));
    s.devices.device_metadata.insert(here(), d);
    s.whitelist_ip(v4(1, 1, 1, 1));
    let texts = ReportTexts {
        time: "2025-01-02 03:04:05".to_string(),
        tcp_share: "100.0".to_string(),
        udp_share: "0.0".to_string(),
        ping_share: "0.0".to_string(),
        seconds: vec!["0.0".to_string(), "1.5".to_string()],
        alert_times: vec!["10:00:00".to_string(), "10:00:01".to_string()],
    };
    let r = s.report(&texts, 10 * SECOND);
    let rule = "=".repeat(64);
    let expected = vec![
        rule.clone(),
        "                VORA-RECON SESSION REPORT".to_string(),
        rule,
        "Version:      2.0.0".to_string(),
        "Timestamp:    2025-01-02 03:04:05".to_string(),
        "Interface:    eth0".to_string(),
        "Network:      net".to_string(),
        "Duration:     10s".to_string(),
        "-".repeat(64),
        "".to_string(),
        "[ SECURITY POSTURE SUMMARY ]".to_string(),
        "Total Alerts:      2".to_string(),
        "  - Suspicious:    0".to_string(),
        "  - Behavioral:    0".to_string(),
        "  - External:      2".to_string(),
        "  - Noise/Misc:    0".to_string(),
        "OS Distribution:  [Win] (1)  ".to_string(),
        "".to_string(),
        "[ TRAFFIC STATISTICS ]".to_string(),
        "Total Packets:     2".to_string(),
        "Total Data:        6.00 KB".to_string(),
        "Average Throughput: 0 pkts/s | 614 B/s".to_string(),
        "".to_string(),
        "Protocol Breakdown:".to_string(),
        "  - TCP:           2 (100.0%)".to_string(),
        "  - UDP:           0 (0.0%)".to_string(),
        "  - ICMP:          0 (0.0%)".to_string(),
        "".to_string(),
        "[ LOCAL NETWORK INVENTORY ]".to_string(),
        format!("{:<16} | {:<30} | {:<25} | {:<18} | {:<8} | {:<12} | {}", "IP Address", "Hostname", "OUI Vendor", "MAC Address", "OS", "Category", "Baseline"),
        "-----------------|--------------------------------|---------------------------|--------------------|----------|--------------|---------".to_string(),
        format!("{:<16} | {:<30} | {:<25} | {:<18} | {:<8} | {:<12} | {}", "192.168.1.5", "den", "Acme", "00:1A:2B:00:00:01", "[Win]", "[PC]", "known"),
        format!("{:<16} | {:<30} | {:<25} | {:<18} | {:<8} | {:<12} | {}", "192.168.1.6", "attic", "Acme", "00:1A:2B:00:00:02", "[?]", "\u{2014}", "[NEW]"),
        "".to_string(),
        "[ DEVICE METADATA (mDNS/SSDP) ]".to_string(),
        format!("{:<16} | {:<28} | {:<20} | {:<20} | {}", "IP Address", "Model", "Firmware", "Services", "Extra"),
        "-----------------|------------------------------|----------------------|----------------------|------".to_string(),
        format!("{:<16} | {:<28} | {:<20} | {:<20} | {}", "192.168.1.5", "Box 3", "\u{2014}", "\u{2014}", "S1"),
        "".to_string(),
        "[ TOP EXTERNAL DESTINATIONS ]".to_string(),
        format!("{:<16} | {:<40} | {:<10} | {:<40}", "IP Address", "Organization", "Bytes", "Domain/Hint"),
        "-----------------|------------------------------------------|------------|-----------------------------------------".to_string(),
        format!("{:<16} | {:<40} | {:<10} | {:<40}", "8.8.8.8", "Unknown", "4.00 KB", "---"),
        format!("{:<16} | {:<40} | {:<10} | {:<40}", "93.184.216.34", "Unknown", "2.00 KB", "example.com"),
        "".to_string(),
        "[ TOP ACTIVE CONNECTIONS ]".to_string(),
        format!("{:<15} -> {:<15} | {:<50} | {:<15} | {:<10}", "Source", "Destination", "Process", "Data", "Duration"),
        "----------------|-----------------|----------------------------------------------------|-----------------|-----------".to_string(),
        format!("{:<15} -> {:<15} | {:<50} | {:<15} | {:<10}", "192.168.1.5", "8.8.8.8", "unknown", "4.00 KB (1p)", "1.5s"),
        format!("{:<15} -> {:<15} | {:<50} | {:<15} | {:<10}", "192.168.1.5", "93.184.216.34", "unknown", "2.00 KB (1p)", "0.0s"),
        "".to_string(),
        "[ TOP RESOLVED DOMAINS ]".to_string(),
        format!("{:<40} (1 hits)", "example.com"),
        "".to_string(),
        "[ SECURITY ALERT LOG ]".to_string(),
        ">  [10:00:01] Outbound \u{2192} 8.8.8.8:443 (unknown)".to_string(),
        ">  [10:00:00] Outbound \u{2192} 93.184.216.34:443 (unknown)".to_string(),
        "".to_string(),
        "[ WHITELISTED ADDRESSES ]".to_string(),
        "  - 1.1.1.1".to_string(),
    ];
    let lines: Vec<String> = r.lines().map(|l| l.to_string()).collect();
    assert_eq!(lines, expected);
    assert!(r.ends_with('\n'));
}

#[test]
fn an_empty_session_is_reported() {
    let s = state();
    let texts = ReportTexts {
        time: "t".to_string(),
        tcp_share: "0.0".to_string(),
        udp_share: "0.0".to_string(),
        ping_share: "0.0".to_string(),
        seconds: vec![],
        alert_times: vec![],
    };
    let r = s.report(&texts, 0);
    assert!(r.contains("\nNo external traffic recorded.\n"));
    assert!(r.contains("\nNo security alerts generated.\n"));
    assert!(!r.contains("INVENTORY") && !r.contains("WHITELISTED") && !r.contains("DOMAINS"));
    assert!(!r.contains("OS Distribution"));
}

#[test]
fn devices_that_were_not_known_are_marked() {
    let mut s = state();
    s.ui.scan_has_run = true;
    s.ui.ip_compressed = false;
    let new = v4(192, 168, 1, 7);
    let now = Moment { steady: 0, unix: 0 };
    s.devices.active_discovery.insert(here(), device("00:1A:2B:00:00:01", "Acme", "den"));
    s.devices.active_discovery.insert(new, device("00:1A:2B:00:00:02", "Acme", "attic"));
    let ips = s.shown_devices();
    assert!(s.device_panel(&ips, "", 20, 200, now).iter().all(|(line, _)| !line.contains("[NEW]")));

    let mut s = state();
    s.ui.ip_compressed = false;
    let mut loaded: Table<IpAddr, DeviceInfo> = Table::new();
    loaded.insert(here(), device("00:1A:2B:00:00:01", "Acme", "den"));
    s.adopt_devices(loaded);
    assert!(s.ui.scan_has_run);
    s.devices.take_baseline();
    s.devices.active_discovery.insert(new, device("00:1A:2B:00:00:02", "Acme", "attic"));
    let ips = s.shown_devices();
    let rows = s.device_panel(&ips, "", 20, 200, now);
    assert!(rows[0].0.starts_with(" [NEW] 192.168.1.7 "));
    assert_eq!(rows[0].1, Tone::Local);
    assert!(rows[1].0.starts_with(" 192.168.1.5 "));
    assert_eq!(rows[1].1, Tone::Normal);
    let narrow = s.device_panel(&ips, "", 20, 20, now);
    assert_eq!(narrow[0].0, " [NEW] 192.168.1....");

    s.devices.take_baseline();
    let rows = s.device_panel(&ips, "", 20, 200, now);
    assert!(rows[0].0.starts_with(" 192.168.1.7 "));
    assert_eq!(rows[0].1, Tone::Normal);
}

#[test]
fn a_scan_that_holds_the_devices_is_shown() {
    let mut s = state();
    s.ui.discovery_status = "Reading ARP table...".to_string();
    assert_eq!(s.ui.scanning_title(0), " Local Discovery [ALL] (Scanning...) (Auto-Rescanning Enabled) ");
    s.ui.auto_scan_enabled = false;
    assert_eq!(s.ui.scanning_title(0), " Local Discovery [ALL] (Scanning...) (Auto-Rescan: PAUSED) ");
    assert_eq!(s.ui.scanning_panel(), vec![(" Reading ARP table...".to_string(), Tone::Warning)]);
}

#[test]
fn clients_are_shown_by_the_names_they_give_themselves() {
    let mut s = state();
    let now = Moment { steady: 7, unix: 9 };
    s.devices.active_discovery.insert(here(), device("m", "v", "\u{2014}"));
    s.devices.name_client(here(), "lamp", now);
    assert_eq!(s.devices.active_discovery.get(&here()).unwrap().hostname, "lamp");
    assert_eq!(s.devices.passive_discovery.get(&here()).unwrap().hostname, "lamp");
    s.devices.name_client(there(), "server", now);
    assert!(s.devices.passive_discovery.get(&there()).is_none());
    let mut found: Table<IpAddr, DeviceInfo> = Table::new();
    found.insert(here(), device("m", "v", "\u{2014}"));
    found.insert(v4(192, 168, 1, 7), device("n", "v", "\u{2014}"));
    s.devices.take_scan(found, Table::new());
    assert_eq!(s.devices.active_discovery.get(&here()).unwrap().hostname, "lamp");
    assert_eq!(s.devices.active_discovery.get(&v4(192, 168, 1, 7)).unwrap().hostname, "\u{2014}");
    let mut found: Table<IpAddr, DeviceInfo> = Table::new();
    found.insert(here(), device("m", "v", "found"));
    s.devices.take_scan(found, Table::new());
    assert_eq!(s.devices.active_discovery.get(&here()).unwrap().hostname, "found");
}

#[test]
fn every_alert_is_reported() {
    let mut s = state();
    for i in 0..30 {
        s.push_alert(alert(AlertTier::Suspicious, 4 * i, &format!("s{i}")));
        s.push_alert(alert(AlertTier::Noise, 4 * i + 1, &format!("n{i}")));
        s.push_alert(alert(AlertTier::External, 4 * i + 2, &format!("e{i}")));
        s.push_alert(alert(AlertTier::Behavioral, 4 * i + 3, &format!("b{i}")));
    }
    let n = reported_count(&s.alerts);
    assert_eq!(n, 120);
    let texts = ReportTexts {
        time: "t".to_string(),
        tcp_share: "0.0".to_string(),
        udp_share: "0.0".to_string(),
        ping_share: "0.0".to_string(),
        seconds: vec![],
        alert_times: (0..n).map(|i| s.alerts.reported_at(i).timestamp.to_string()).collect(),
    };
    let r = s.report(&texts, 0);
    let lines: Vec<&str> = r.lines().collect();
    let start = lines.iter().position(|l| *l == "[ SECURITY ALERT LOG ]").unwrap() + 1;
    assert_eq!(lines.len(), start + 120);
    assert_eq!(lines[start], "*  [119] b29");
    assert_eq!(lines[start + 1], ">  [118] e29");
    assert_eq!(lines[start + 2], ".  [117] n29");
    assert_eq!(lines[start + 3], "!! [116] s29");
    assert_eq!(lines[start + 119], "!! [0] s0");
}
