//! How the devices of a network are found, named and described.

use vora_recon::announce::{
    collect_mdns_packet, details_of, device_of_instance, process_mdns_packet, set_model,
    strip_local,
};
use vora_recon::apple::resolve_apple_model;
use vora_recon::arp::Neighbour;
use vora_recon::banner::{
    banner_status, body_preview, description_url, extract_html_title, find_server, header_text,
    needs_banner, next_page, note_description, note_page, parse_xml_description, root_url,
    shows_progress, PageStep,
};
use vora_recon::board::{board_details, board_devices, copy_details, copy_devices, DetailsBoard, DeviceBoard};
use vora_recon::category::{classify_device_category, CATEGORIES};
use vora_recon::control::{
    first_stage, next_stage, DiscoverySignal, Request, Scanner, ScannerStep, Stage,
};
use vora_recon::device::{default_unix_now, unix_seconds, DeviceDetails, DeviceInfo};
use vora_recon::enrich::{
    accept_name, add_announced, banner_targets, hint_name, listed_name, name_by_mac, search_name, settle_name,
    take_description, take_device_description, take_dhcp_fingerprint, take_page, take_told_host,
    unidentified_devices, NameSearch,
};
use vora_recon::judge::{judge_devices, take_last_names};
use vora_recon::mdns::{
    asks_again, browse_queries, build_mdns_a_query, build_mdns_qu_query, build_mdns_service_query,
    parse_mdns_a_records, parse_mdns_ptr_responses, parse_mdns_service_instances,
    parse_mdns_txt_records, read_mdns_name, reverse_queries, skip_mdns_name, BROWSE_SERVICES,
};
use vora_recon::naming::{
    baseline_file_name, has_hex_segment, names_script, names_wait, printed_names,
    read_name_table, read_printed_names, select_best_hostname, should_resolve_hostname, told_name,
};
use vora_recon::net::{v4, IpAddr};
use vora_recon::pairing::{duplicate_alerts, list_devices, try_note_pairs};
use vora_recon::probe::{probe_queries, Probe};
use vora_recon::scan::{
    baseline_of, learn_details, mark_stale, merge_details, merge_scan, names_wanted, new_device_alerts,
    probing_status, ready_status, see_device, waking_status, Moment, Scan,
};
use vora_recon::ssdp::{
    extract_xml_tag, is_local_ssdp_url, read_description, read_probe_match, ssdp_location,
    take_location, take_match, wsd_probe, SEARCH_ALL,
};
use vora_recon::table::{KeySet, Table};
use vora_recon::vendor::{get_vendor, strip_mac, try_get_vendor, VendorList};

const DASH: &str = "\u{2014}";

fn now() -> Moment {
    Moment { steady: 100, unix: 5000 }
}

fn ip(last: u8) -> IpAddr {
    v4(192, 168, 1, last)
}

fn link(n: u128) -> IpAddr {
    IpAddr::V6(0xfe80_0000_0000_0000_0000_0000_0000_0000 + n)
}

fn device(mac: &str, vendor: &str, host: &str) -> DeviceInfo {
    see_device(mac.to_string(), vendor.to_string(), host.to_string(), now())
}

fn blank() -> DeviceDetails {
    DeviceDetails { services: KeySet::new(), properties: Table::new() }
}

fn owned(s: &str) -> String {
    s.to_string()
}

fn name(n: &str) -> Vec<u8> {
    let mut v: Vec<u8> = Vec::new();
    for label in n.split('.') {
        v.push(label.len() as u8);
        v.extend_from_slice(label.as_bytes());
    }
    v.push(0);
    v
}

fn record(n: &str, kind: u16, body: &[u8]) -> Vec<u8> {
    let mut v = name(n);
    v.extend_from_slice(&kind.to_be_bytes());
    v.extend_from_slice(&[0, 1, 0, 0, 0, 9]);
    v.extend_from_slice(&(body.len() as u16).to_be_bytes());
    v.extend_from_slice(body);
    v
}

fn response(records: &[Vec<u8>]) -> Vec<u8> {
    let mut v: Vec<u8> = vec![0, 0, 0x84, 0, 0, 0, 0, records.len() as u8, 0, 0, 0, 0];
    for r in records {
        v.extend_from_slice(r);
    }
    v
}

fn texts(pairs: &[&str]) -> Vec<u8> {
    let mut v: Vec<u8> = Vec::new();
    for p in pairs {
        v.push(p.len() as u8);
        v.extend_from_slice(p.as_bytes());
    }
    v
}

#[test]
fn queries_ask_for_a_name() {
    let q = build_mdns_service_query("_ipp._tcp.local", 7);
    assert_eq!(&q[..12], &[0, 7, 0, 0, 0, 1, 0, 0, 0, 0, 0, 0]);
    assert_eq!(read_mdns_name(&q, 12), Some((owned("_ipp._tcp.local"), 29)));
    assert_eq!(skip_mdns_name(&q, 12), Some(29));
    assert_eq!(&q[29..31], &[0, 12]);
    let u = build_mdns_qu_query("_ipp._tcp.local", 7);
    assert_eq!(u.len(), q.len());
    assert_eq!(&u[29..33], &[0, 12, 0x80, 1]);
    let a = build_mdns_a_query("host", 9);
    assert_eq!(a[1], 9);
    assert_eq!(browse_queries(1).len(), BROWSE_SERVICES.len());
    let r = reverse_queries(&vec![ip(5)]);
    assert_eq!(read_mdns_name(&r[0], 12).unwrap().0, "5.1.168.192.in-addr.arpa");
}

#[test]
fn records_are_read() {
    let d = response(&[
        record("host.local", 1, &[192, 168, 1, 9]),
        record("_ipp._tcp.local", 12, &name("My Printer._ipp._tcp.local")),
        record("My Printer._ipp._tcp.local", 16, &texts(&["rpMd=iPhone14,2", "flag", "fn=Den"])),
        record("9.1.168.192.in-addr.arpa", 12, &name("printer.local")),
    ]);
    assert_eq!(parse_mdns_a_records(&d), vec![(owned("host.local"), ip(9))]);
    assert!(parse_mdns_service_instances(&d).contains(&owned("My Printer._ipp._tcp.local")));
    let t = parse_mdns_txt_records(&d);
    assert_eq!(t.len(), 1);
    assert_eq!(t[0].0, "My Printer._ipp._tcp.local");
    assert!(t[0].1.contains(&(owned("rpmd"), owned("iPhone14,2"))));
    assert!(t[0].1.contains(&(owned("fn"), owned("Den"))));
    let p = parse_mdns_ptr_responses(&d);
    assert_eq!(p, vec![(ip(9), owned("printer.local"))]);
    assert!(parse_mdns_a_records(&d[..11]).is_empty());
}

#[test]
fn announcements_name_and_describe_hosts() {
    let d = response(&[
        record("Den-TV.local", 1, &[192, 168, 1, 9]),
        record("other.local", 1, &[192, 168, 1, 10]),
        record("x._airplay._tcp.local", 16, &texts(&["rpMd=iPhone14,2", "osxvers=23", "ci=28", "srcvers=1.2", "fn=Den"])),
    ]);
    let mut hosts: Table<IpAddr, String> = Table::new();
    let mut details: Table<IpAddr, DeviceDetails> = Table::new();
    process_mdns_packet(&d, ip(3), &mut hosts, &mut details);
    assert_eq!(hosts.get(&ip(9)).unwrap(), "Den-TV");
    assert_eq!(hosts.get(&ip(10)).unwrap(), "other");
    assert!(details.get(&ip(3)).is_none());
    let m = details.get(&ip(9)).unwrap();
    assert_eq!(m.get("model_code").unwrap(), "iPhone14,2");
    assert_eq!(m.get("model").unwrap(), "iPhone 13 Pro");
    assert_eq!(m.get("os_version").unwrap(), "macOS 14 Sonoma");
    assert_eq!(m.get("homekit_category").unwrap(), "TV");
    assert_eq!(m.get("firmware").unwrap(), "1.2");
    assert_eq!(m.get("friendly_name").unwrap(), "Den");
    assert!(m.services.contains(&owned("AirPlay")));
    process_mdns_packet(&response(&[record("new.local", 1, &[192, 168, 1, 9])]), ip(3), &mut hosts, &mut details);
    assert_eq!(hosts.get(&ip(9)).unwrap(), "Den-TV");
    collect_mdns_packet(&response(&[record("11.1.168.192.in-addr.arpa", 12, &name("lamp.local"))]), ip(3), &mut hosts, &mut details);
    assert_eq!(hosts.get(&ip(11)).unwrap(), "lamp");
    assert!(details_of(&details, ip(99)).is_empty());
}

#[test]
fn instances_name_devices() {
    assert_eq!(device_of_instance("AABB@Kitchen._raop._tcp.local"), "Kitchen");
    assert_eq!(device_of_instance("70-35-60-63.1 Master Bedroom._sleep-proxy._udp.local"), "Master Bedroom");
    assert_eq!(device_of_instance("My Printer._ipp._tcp.local"), "My Printer");
    assert_eq!(device_of_instance("ab-cd Den._x._tcp.local"), "Den");
    assert_eq!(strip_local("host.local"), "host");
    let mut d = blank();
    set_model(&mut d, "MacBookPro18,1");
    assert!(d.get("model").is_some());
}

#[test]
fn models_of_apple() {
    assert_eq!(resolve_apple_model("iPhone14,2"), Some("iPhone 13 Pro"));
    assert_eq!(resolve_apple_model("iPhone99,9"), Some("iPhone (unknown model)"));
    assert_eq!(resolve_apple_model("Toaster1,1"), None);
}

#[test]
fn descriptions_are_read() {
    assert_eq!(extract_xml_tag("<a> x </a>", "a").as_deref(), Some("x"));
    assert_eq!(extract_xml_tag("<a>  </a>", "a"), None);
    assert_eq!(extract_xml_tag("<a>x", "a"), None);
    let xml = "<friendlyName>Den</friendlyName><manufacturer>Acme</manufacturer><modelName>T1</modelName>\
        <serviceType>urn:schemas-upnp-org:service:AVTransport:1</serviceType>\
        <serviceType>urn:schemas-upnp-org:service:RenderingControl:1</serviceType>";
    let m = read_description(xml);
    assert_eq!(m.get(&owned("friendly_name")).unwrap(), "Den");
    assert_eq!(m.get(&owned("model_name")).unwrap(), "T1");
    assert_eq!(m.get(&owned("services")).unwrap(), "AVTransport, RenderingControl");
    assert_eq!(m.len(), 4);
    assert_eq!(parse_xml_description(xml), (Some(owned("Den")), Some(owned("T1")), Some(owned("Acme"))));
    let mut d = blank();
    d.set("model", "Old");
    note_description(&mut d, xml);
    assert_eq!(d.get("model").unwrap(), "Old");
    assert_eq!(d.get("manufacturer").unwrap(), "Acme");
}

#[test]
fn only_local_locations_are_asked() {
    assert!(is_local_ssdp_url("http://192.168.1.5:80/x.xml"));
    assert!(is_local_ssdp_url("https://10.0.0.1/x"));
    assert!(!is_local_ssdp_url("http://8.8.8.8/x"));
    assert!(!is_local_ssdp_url("http://host.local/x"));
    assert!(is_local_ssdp_url("http://192.168.1.5?a=b@c") && is_local_ssdp_url("http://192.168.1.5#x"));
    assert!(!is_local_ssdp_url("http://192.168.1.1:80@evil.com/x"));
    assert!(!is_local_ssdp_url("http://192.168.1.1@evil.com/x"));
    assert!(!is_local_ssdp_url("http://evil.com?192.168.1.1/x") && !is_local_ssdp_url("http://evil.com#@192.168.1.1/"));
    assert!(!is_local_ssdp_url("http://evil.com\\@192.168.1.1/"));
    assert!(!is_local_ssdp_url("http://http://192.168.1.1/"));
    let r = "HTTP/1.1 200 OK\r\nLOCATION: http://8.8.8.8/a\r\nlocation: http://192.168.1.5/b \r\n";
    assert_eq!(ssdp_location(r).as_deref(), Some("http://192.168.1.5/b"));
    assert_eq!(ssdp_location("HTTP/1.1 200 OK\r\n"), None);
    assert!(SEARCH_ALL.ends_with("\r\n\r\n"));
    let mut found: Table<IpAddr, String> = Table::new();
    take_location(&mut found, ip(5), b"LOCATION: http://93.184.216.34/a\r\n");
    take_location(&mut found, ip(5), b"LOCATION: http://192.168.1.5/\xff\r\n");
    assert_eq!(found.len(), 0);
    take_location(&mut found, ip(5), r.as_bytes());
    take_location(&mut found, ip(5), b"LOCATION: http://192.168.1.6/c\r\n");
    assert_eq!(found.get(&ip(5)).unwrap(), "http://192.168.1.5/b");
}

#[test]
fn answers_of_web_services_are_read() {
    let p = wsd_probe(1, 2);
    let mix: u64 = 1u64.wrapping_mul(6364136223846793005).wrapping_add(2);
    let id = format!(
        "urn:uuid:{:08x}-{:04x}-4{:03x}-{:04x}-{:012x}",
        (mix >> 32) as u32,
        (mix >> 16) as u16,
        mix & 0xfff,
        0x8000u64 | ((mix >> 48) & 0x3fff),
        1
    );
    assert!(p.contains(&id), "{}", p);
    let m = read_probe_match("<wsd:Types>wsdp:Device pub:Computer</wsd:Types><wsd:XAddrs>http://192.168.1.5:5357/x http://box:5357/x</wsd:XAddrs>");
    assert_eq!(m.get(&owned("wsd_types")).unwrap(), "Device, Computer");
    assert_eq!(m.get(&owned("wsd_class")).unwrap(), "Computer");
    assert!(read_probe_match("<x/>").len() == 0);
    let mut found: Table<IpAddr, Table<String, String>> = Table::new();
    take_match(&mut found, ip(5), b"<x/>");
    take_match(&mut found, ip(5), b"<d:Types>a:Print</d:Types>\xff");
    assert_eq!(found.len(), 0);
    take_match(&mut found, ip(5), b"<d:Types>a:Print</d:Types>");
    take_match(&mut found, ip(5), b"<d:Types>a:Scanner</d:Types>");
    take_match(&mut found, ip(5), b"<x/>");
    assert_eq!(found.get(&ip(5)).unwrap().get(&owned("wsd_class")).unwrap(), "Scanner");
}

fn list() -> VendorList {
    VendorList::parse("00-1A-2B   (hex)\t\tAcme Corp\n001A2B     (base 16)\tAcme\n24-0a-c4   (hex)\tEspressif Inc.\nxx\n00-1A-2B (hex) Newer\n")
}

#[test]
fn makers_are_told_by_hardware_addresses() {
    let l = list();
    assert_eq!(get_vendor(&l, "00:1a:2b:00:00:01"), "Newer");
    assert_eq!(get_vendor(&l, "24-0A-C4-00-00-01"), "Espressif Inc.");
    assert_eq!(get_vendor(&l, "00:00:00:00:00:00"), "Unknown");
    assert_eq!(get_vendor(&l, "ff:ff:ff:ff:ff:ff"), "Broadcast");
    assert_eq!(get_vendor(&l, "01:00:5e:00:00:01"), "IPv4 Multicast");
    assert_eq!(get_vendor(&l, "33:33:00:00:00:01"), "IPv6 Multicast");
    assert_eq!(get_vendor(&l, "02:00:00:00:00:01"), "Randomized MAC");
    assert_eq!(get_vendor(&l, "00:1a"), "Unknown");
    assert_eq!(try_get_vendor(&l, "00:1a:2b:00:00:01").as_deref(), Some("Newer"));
    assert_eq!(try_get_vendor(&l, "aaaaaé"), None);
    assert_eq!(strip_mac("a:b-c"), "ABC");
}

#[test]
fn names_are_chosen() {
    assert!(should_resolve_hostname(&ip(1)));
    assert!(should_resolve_hostname(&link(1)));
    assert!(!should_resolve_hostname(&v4(8, 8, 8, 8)));
    assert!(has_hex_segment("host-0123456789"));
    assert!(!has_hex_segment("host-012345678"));
    assert_eq!(select_best_hostname(&vec![owned("a"), owned("bcd"), owned("xyz"), owned("0123456789abcdef")]).as_deref(), Some("bcd"));
    assert_eq!(select_best_hostname(&vec![owned("0123456789")]), None);
    assert_eq!(select_best_hostname(&vec![]), None);
    let table = "  Name\n  192.168.1.5    <00>  UNIQUE\n  WORKGROUP <00>  GROUP\n  DESK-1  <00>  Unique  Registered\n";
    assert_eq!(read_name_table(table, &ip(5)).as_deref(), Some("DESK-1"));
    assert_eq!(read_name_table("", &ip(5)), None);
    assert!(names_script(&vec![ip(1), ip(2)]).starts_with("foreach ($ip in @('192.168.1.1','192.168.1.2'))"));
    assert_eq!((names_wait(0), names_wait(54), names_wait(100)), (20, 20, 30));
    assert_eq!(
        read_printed_names("192.168.1.5=desk.lan\nx\n192.168.1.6=Error y\n192.168.1.7=\n"),
        vec![(owned("192.168.1.5"), owned("desk"))]
    );
    assert_eq!(told_name(table.as_bytes(), &ip(5)).as_deref(), Some("DESK-1"));
    assert_eq!(told_name(b"A\xff <00> UNIQUE", &ip(5)).as_deref(), Some("A\u{fffd}"));
    assert_eq!(printed_names(b"192.168.1.5=d\xff.lan\r\n"), vec![(owned("192.168.1.5"), owned("d\u{fffd}"))]);
    assert_eq!(baseline_file_name("My Net/é-1"), "My_Net_é-1.json");
}

#[test]
fn categories_of_devices() {
    let c = |v: &str, h: &str| classify_device_category(v, h, None);
    assert_eq!(c("eero inc", "x"), Some("Router"));
    assert_eq!(c("ecobee", "x"), Some("Thermostat"));
    assert_eq!(c("Ring LLC", "x"), Some("Camera"));
    assert_eq!(c("HP Inc.", "x"), Some("Printer"));
    assert_eq!(c("x", "NPI123456"), Some("Printer"));
    assert_eq!(c("x", "Xbox"), Some("Console"));
    assert_eq!(c("x", "Apple TV"), Some("Streamer"));
    assert_eq!(c("Sonos", "x"), Some("Speaker"));
    assert_eq!(c("Samsung Electronics", "Samsung Q80"), Some("TV"));
    assert_eq!(c("x", "echo-den"), Some("Echo"));
    assert_eq!(c("Belkin", "x"), Some("SmartPlug"));
    assert_eq!(c("Signify", "x"), Some("Hub"));
    assert_eq!(c("x", "rachio"), Some("Sprinkler"));
    assert_eq!(c("Chamberlain", "x"), Some("Garage"));
    assert_eq!(c("x", "Dryer"), Some("Appliance"));
    assert_eq!(c("x", "iPhone"), Some("Phone"));
    assert_eq!(c("x", "MacBook"), Some("PC"));
    assert_eq!(c("Espressif", "x"), Some("IoT"));
    assert_eq!(c("x", "x"), None);
    let mut d = blank();
    d.offer("AirPlay");
    assert_eq!(classify_device_category("x", "x", Some(&d)), Some("Speaker"));
    d.set("model", "iPhone 13");
    assert_eq!(classify_device_category("x", "x", Some(&d)), Some("Phone"));
    assert!(CATEGORIES.contains(&"Phone"));
    assert_eq!(CATEGORIES.len(), 17);
}

#[test]
fn a_probe_asks_and_hears() {
    assert_eq!(probe_queries().len(), 5);
    let mut p = Probe::new();
    assert_eq!(p.take_silence(), None);
    let d = response(&[
        record("Anna.local", 1, &[192, 168, 1, 9]),
        record("x._companion-link._tcp.local", 16, &texts(&["rpMd=iPhone14,2"])),
    ]);
    let asked = p.take_answer(&d).unwrap();
    assert_eq!(read_mdns_name(&asked, 12).unwrap().0, "Anna.local");
    assert_eq!(p.take_answer(&d), None);
    assert_eq!(p.take_silence(), None);
    let (n, details) = p.finish().unwrap();
    assert_eq!(n, "Anna");
    assert_eq!(details.get("model").unwrap(), "iPhone 13 Pro");
    assert!(Probe::new().finish().is_none());
}

#[test]
fn pages_are_asked_in_turn() {
    let s = next_page(PageStep::Speaker, false);
    assert_eq!(s, PageStep::Description(80));
    let s = next_page(s, false);
    assert_eq!(s, PageStep::Root(80));
    assert_eq!(next_page(s, true), PageStep::Done);
    let s = next_page(s, false);
    assert_eq!(s, PageStep::Description(8080));
    let s = next_page(next_page(s, true), false);
    assert_eq!(s, PageStep::Done);
    assert_eq!(description_url(&ip(5), 80), "http://192.168.1.5:80/xml/device_description.xml");
    assert_eq!(root_url(&ip(5), 8080), "http://192.168.1.5:8080/");
    assert!(!banner_status(1, 2).is_empty());
    println!("{} {}", banner_status(1, 2), shows_progress(1, 2));
}

#[test]
fn pages_are_read() {
    assert_eq!(extract_html_title("<HTML><Title> My Cam </TITLE>").as_deref(), Some("My Cam"));
    assert_eq!(extract_html_title("<title></title>"), None);
    assert_eq!(header_text("nginx", "text/html"), "Server: nginx\nContent-Type: text/html");
    assert_eq!(find_server("Server: nginx\nContent-Type: x").as_deref(), Some("nginx"));
    assert_eq!(find_server("Server: \nContent-Type: x"), None);
    let long = "a".repeat(9000);
    assert_eq!(body_preview(&long).len(), 8192);
    assert_eq!(body_preview("short"), "short");
    let mut d = blank();
    assert_eq!(note_page(&mut d, "Server: x\n", "<title>T</title>").as_deref(), Some("T"));
    assert_eq!(d.get("http_server").unwrap(), "x");
    assert_eq!(d.get("html_title").unwrap(), "T");
    assert!(needs_banner(None));
}

#[test]
fn boards_hold_what_was_put_in() {
    let mut b = DeviceBoard::new();
    assert!(b.get(&ip(1)).is_none());
    b.insert(ip(1), device("m", "v", "h"));
    b.insert(link(1), device("m6", "v", "h"));
    b.insert(ip(1), device("m2", "v", "h"));
    assert_eq!(b.get(&ip(1)).unwrap().mac, "m2");
    assert_eq!(b.get(&link(1)).unwrap().mac, "m6");
    let mut ips = b.ips();
    ips.sort();
    assert_eq!(ips, vec![ip(1), link(1)]);
    let t = copy_devices(&b);
    assert_eq!(t.len(), 2);
    assert_eq!(board_devices(&t).get(&ip(1)).unwrap().mac, "m2");
    let mut d = DetailsBoard::new();
    let mut x = blank();
    x.set("k", "v");
    d.insert(ip(1), x);
    assert_eq!(d.details(&ip(1)).get("k").unwrap(), "v");
    assert!(d.details(&ip(2)).is_empty());
    assert_eq!(d.ips(), vec![ip(1)]);
    let t = copy_details(&d);
    assert_eq!(board_details(&t).get(&ip(1)).unwrap().get("k").unwrap(), "v");
}

#[test]
fn a_scan_reads_the_table_of_the_system() {
    let row = |last: u8, state: u32, mac: Vec<u8>| Neighbour { interface: 1, state, ip: ip(last), mac };
    let mut s = Scan::new();
    s.read_table(
        &vec![row(5, 2, vec![0, 0x1a, 0x2b, 0, 0, 1]), row(6, 4, vec![2, 0, 0, 0, 0, 1]), row(7, 0, vec![1; 6])],
        Some(1),
        &list(),
        now(),
    );
    assert_eq!(s.found.len(), 2);
    let d = s.found.get(&ip(5)).unwrap();
    assert_eq!((d.mac.as_str(), d.vendor.as_str(), d.hostname.as_str()), ("00:1A:2B:00:00:01", "Newer", "Resolving..."));
    assert_eq!((d.miss_count, d.last_seen, d.last_seen_unix), (0, 100, 5000));
    assert_eq!(s.wanted, vec![ip(5), ip(6)]);
    assert_eq!(s.stale, vec![ip(6)]);
    s.take_reply(ip(8), owned("00:11:22:33:44:55"), owned("Acme"), now());
    s.take_reply(v4(8, 8, 8, 8), owned("x"), owned("Acme"), now());
    assert_eq!(s.found.len(), 3);
    let mut names: Table<IpAddr, String> = Table::new();
    names.insert(ip(9), owned("lamp"));
    names.insert(ip(5), owned("other"));
    s.take_names(&names, now());
    assert_eq!(s.found.get(&ip(9)).unwrap().hostname, "lamp");
    assert_eq!(s.found.get(&ip(5)).unwrap().hostname, "Resolving...");
    let mut board = DetailsBoard::new();
    assert_eq!(s.probe_targets(&board), vec![ip(5), ip(6), ip(8), ip(9)]);
    let mut told = blank();
    told.set("model", "iPhone 13");
    s.take_probe(&mut board, ip(6), "Anna", &told);
    let d = s.found.get(&ip(6)).unwrap();
    assert_eq!((d.vendor.as_str(), d.hostname.as_str()), ("Apple Inc.", "Anna"));
    assert_eq!(board.details(&ip(6)).get("model").unwrap(), "iPhone 13");
    assert_eq!(s.probe_targets(&board), vec![ip(5), ip(8), ip(9)]);
    let mut seen: Table<IpAddr, DeviceInfo> = Table::new();
    seen.insert(ip(20), device("m", "v", "h"));
    seen.insert(ip(5), device("m", "v", "h"));
    s.take_sightings(&seen);
    assert_eq!(s.found.get(&ip(20)).unwrap().hostname, "h");
    assert_eq!(s.found.get(&ip(5)).unwrap().vendor, "Newer");
}

#[test]
fn a_scan_stays_in_this_network() {
    let out = v4(8, 8, 8, 8);
    let mut s = Scan::new();
    let row = Neighbour { interface: 1, state: 4, ip: out, mac: vec![2, 0, 0, 0, 0, 1] };
    s.read_table(&vec![row], None, &list(), now());
    let mut names: Table<IpAddr, String> = Table::new();
    names.insert(out, owned("far"));
    s.take_names(&names, now());
    let mut seen: Table<IpAddr, DeviceInfo> = Table::new();
    seen.insert(out, device("m", "v", "h"));
    s.take_sightings(&seen);
    let mut board = DetailsBoard::new();
    s.take_probe(&mut board, out, "far", &blank());
    assert_eq!(s.found.len(), 0);
    assert!(s.wanted.is_empty() && s.stale.is_empty());
    assert_eq!(waking_status(2), "Waking and probing 2 stale Apple/unknown device(s)...");
    assert_eq!(probing_status(3), "Probing 3 device(s) via mDNS...");
    assert_eq!(ready_status(10), "Ready (10 discovered)");
}

#[test]
fn a_scan_keeps_devices_and_names() {
    let mut b = DeviceBoard::new();
    b.insert(ip(1), device("m1", "v1", "named"));
    b.insert(ip(2), device("m2", "v2", "gone"));
    let mut found: Table<IpAddr, DeviceInfo> = Table::new();
    found.insert(ip(1), device("m1b", "v1b", "Resolving..."));
    found.insert(ip(3), device("m3", "v3", "new"));
    merge_scan(&mut b, &found, Moment { steady: 7, unix: 8 });
    let d = b.get(&ip(1)).unwrap();
    assert_eq!((d.mac.as_str(), d.hostname.as_str(), d.miss_count, d.last_seen), ("m1b", "named", 0, 7));
    assert_eq!(b.get(&ip(2)).unwrap().miss_count, 1);
    assert_eq!(b.get(&ip(2)).unwrap().hostname, "gone");
    assert_eq!(b.get(&ip(3)).unwrap().hostname, "new");
    b.insert(ip(4), device("m4", "v", DASH));
    let w = names_wanted(&b, &vec![ip(9)]);
    assert_eq!(w, vec![ip(9), ip(4)]);
}

#[test]
fn devices_are_kept_between_sessions() {
    let mut b = DeviceBoard::new();
    b.insert(ip(1), device("m1", "v", "h"));
    b.insert(v4(8, 8, 8, 8), device("m2", "v", "h"));
    let t = baseline_of(&b);
    assert_eq!(t.len(), 1);
    let s = mark_stale(&t);
    assert_eq!(s.get(&ip(1)).unwrap().miss_count, 1);
    assert_eq!(s.get(&ip(1)).unwrap().hostname, "h");
}

#[test]
fn what_is_learned_is_added() {
    let mut known = blank();
    known.set("a", "1");
    known.set("b", "1");
    known.offer("X");
    let mut learned = blank();
    learned.set("b", "2");
    learned.offer("Y");
    merge_details(&mut known, &learned);
    assert_eq!(known.get("a").unwrap(), "1");
    assert_eq!(known.get("b").unwrap(), "2");
    assert_eq!(known.services.len(), 2);
    let mut board = DetailsBoard::new();
    let mut t: Table<IpAddr, DeviceDetails> = Table::new();
    t.insert(ip(1), learned);
    learn_details(&mut board, &t);
    assert_eq!(board.details(&ip(1)).get("b").unwrap(), "2");
}

#[test]
fn names_are_settled() {
    let mut b = DeviceBoard::new();
    b.insert(ip(1), device("AA", "v", "Resolving..."));
    b.insert(ip(2), device("BB", "v", "Resolving..."));
    b.insert(ip(3), device("CC", "v", "kept"));
    b.insert(link(1), device("AA", "v", DASH));
    settle_name(&mut b, &ip(1), &Some(owned("den")));
    settle_name(&mut b, &ip(2), &None);
    settle_name(&mut b, &ip(3), &Some(owned("other")));
    assert_eq!(b.get(&ip(1)).unwrap().hostname, "den");
    assert_eq!(b.get(&link(1)).unwrap().hostname, "den");
    assert_eq!(b.get(&ip(2)).unwrap().hostname, DASH);
    assert_eq!(b.get(&ip(3)).unwrap().hostname, "kept");
    b.insert(link(2), device("CC", "v", DASH));
    assert_eq!(name_by_mac(&b, &link(2)).as_deref(), Some("kept"));
    assert_eq!(name_by_mac(&b, &ip(99)), None);
    assert_eq!(accept_name(&Some(owned(" x ")), &ip(1)).as_deref(), Some("x"));
    assert_eq!(accept_name(&Some(owned("192.168.1.1")), &ip(1)), None);
    assert_eq!(accept_name(&None, &ip(1)), None);
    let mut a: Table<IpAddr, String> = Table::new();
    a.insert(ip(1), owned("first"));
    let mut p: Table<IpAddr, String> = Table::new();
    p.insert(ip(1), owned("second"));
    p.insert(ip(2), owned("third"));
    assert_eq!(listed_name(&ip(1), &a, &p).as_deref(), Some("first"));
    assert_eq!(listed_name(&ip(2), &a, &p).as_deref(), Some("third"));
    hint_name(&mut b, &ip(2), "hint");
    hint_name(&mut b, &ip(3), "hint");
    assert_eq!(b.get(&ip(2)).unwrap().hostname, "hint");
    assert_eq!(b.get(&ip(3)).unwrap().hostname, "kept");
    let mut names: Table<IpAddr, String> = Table::new();
    names.insert(ip(50), owned("late"));
    add_announced(&mut b, &names, now());
    assert_eq!(b.get(&ip(50)).unwrap().hostname, "late");
    names.insert(ip(51), owned("later"));
    take_last_names(&mut b, &names, now());
    assert_eq!(b.get(&ip(51)).unwrap().vendor, "Unknown");
}

#[test]
fn devices_are_described() {
    let mut d = DetailsBoard::new();
    let mut told: Table<String, String> = Table::new();
    told.insert(owned("model_name"), owned("T1"));
    told.insert(owned("services"), owned("A, B,"));
    take_description(&mut d, &ip(1), &told);
    let x = d.details(&ip(1));
    assert_eq!(x.get("model_name").unwrap(), "T1");
    assert!(x.services.contains(&owned("A")) && x.services.contains(&owned("B")));
    assert_eq!(x.services.len(), 2);
    take_dhcp_fingerprint(&mut d, ip(1), "1,3,6");
    assert_eq!(d.details(&ip(1)).get("dhcp_fingerprint").unwrap(), "1,3,6");
    take_device_description(&mut d, ip(2), "<friendlyName>Den</friendlyName>");
    assert_eq!(d.details(&ip(2)).get("friendly_name").unwrap(), "Den");
    let mut b = DeviceBoard::new();
    b.insert(ip(1), device("AA", "Unknown", DASH));
    b.insert(ip(2), device("BB", "Acme", DASH));
    assert_eq!(unidentified_devices(&b, &d), vec![ip(1)]);
    take_page(&mut b, &mut d, ip(2), "Server: s\n", "<title>Cam</title>");
    assert_eq!(d.details(&ip(2)).get("html_title").unwrap(), "Cam");
    assert_eq!(b.get(&ip(2)).unwrap().hostname, "Cam");
    assert!(!banner_targets(&b, &d).contains(&ip(2)));
}

#[test]
fn hosts_tell_their_names() {
    let mut b = DeviceBoard::new();
    b.insert(ip(1), device("m1", "v", DASH));
    b.insert(ip(2), device("m2", "v", "named"));
    b.insert(v4(8, 8, 8, 8), device("m3", "v", DASH));
    let mut told: Table<String, String> = Table::new();
    take_told_host(&mut b, &ip(1), &told);
    assert_eq!(b.get(&ip(1)).unwrap().hostname, DASH);
    told.insert(owned("wsd_hostname"), owned("BOX"));
    for a in [ip(1), ip(2), v4(8, 8, 8, 8), ip(4)] {
        take_told_host(&mut b, &a, &told);
    }
    assert_eq!(b.get(&ip(1)).unwrap().hostname, "BOX");
    assert_eq!(b.get(&ip(2)).unwrap().hostname, "named");
    assert_eq!(b.get(&v4(8, 8, 8, 8)).unwrap().hostname, DASH);
    assert!(b.get(&ip(4)).is_none());
}

#[test]
fn devices_are_judged() {
    let mut b = DeviceBoard::new();
    b.insert(ip(1), device("AA", "Unknown", "_asquic._udp"));
    b.insert(ip(2), device("BB", "Unknown", DASH));
    b.insert(ip(3), device("CC", "Acme", "eerogw"));
    let mut d = DetailsBoard::new();
    let mut x = blank();
    x.set("model", "iPhone 13");
    d.insert(ip(2), x);
    judge_devices(&mut b, &mut d);
    assert_eq!(b.get(&ip(1)).unwrap().hostname, "Apple Device");
    let two = b.get(&ip(2)).unwrap();
    assert_eq!((two.hostname.as_str(), two.vendor.as_str()), ("iPhone 13", "Apple, Inc."));
    assert_eq!(b.get(&ip(3)).unwrap().hostname, "eero Gateway");
    assert_eq!(d.details(&ip(2)).get("category").unwrap(), "Phone");
    assert_eq!(d.details(&ip(3)).get("category").unwrap(), "Router");
}

#[test]
fn shared_and_neighbouring_hardware_addresses() {
    let mut b = DeviceBoard::new();
    b.insert(ip(1), device("24:0A:C4:00:00:01", "Espressif Inc.", "lamp"));
    b.insert(ip(2), device("24:0A:C4:00:00:20", "Espressif Inc.", DASH));
    b.insert(ip(3), device("00:1A:2B:00:00:01", "Newer", "a"));
    b.insert(ip(4), device("00:1A:2B:00:00:01", "Newer", "b"));
    b.insert(ip(5), device("00:1A:2B:FF:00:01", "Newer", "c"));
    b.insert(link(5), device("00:1A:2B:FF:00:01", "Newer", "c"));
    let l = list_devices(&b);
    assert_eq!(l.len(), 6);
    let alerts = duplicate_alerts(&l, &list()).unwrap();
    assert_eq!(alerts.len(), 1);
    assert!(alerts[0].starts_with("Duplicate MAC address detected! MAC: 00:1A:2B:00:00:01 shared by 2 IPs: ["));
    let mut d = DetailsBoard::new();
    assert!(try_note_pairs(&mut d, &l));
    let note = d.details(&ip(1)).get("note").unwrap().clone();
    assert!(note.starts_with("Device Pair \u{2014} likely same hardware batch (ESP32 pair: "));
    assert!(note.contains("lamp") && note.contains("ESP32"));
    assert_eq!(d.details(&ip(2)).get("note").unwrap(), &note);
    assert!(d.details(&ip(5)).get("note").is_some());
}

#[test]
fn the_scanner_keeps_requests() {
    let scan = Request::Signal(DiscoverySignal::ScanNow);
    let mut s = Scanner::new();
    assert_eq!(s.idle_step(Request::Quiet), ScannerStep::Wait);
    assert_eq!(s.idle_step(scan), ScannerStep::Begin);
    assert_eq!(s.running_step(false, Request::Quiet), ScannerStep::Poll);
    assert_eq!(s.running_step(false, scan), ScannerStep::Cancel);
    assert_eq!(s.running_step(true, Request::Quiet), ScannerStep::Join);
    assert_eq!(s.idle_step(Request::Quiet), ScannerStep::Begin);
    assert_eq!(s.idle_step(Request::Quiet), ScannerStep::Wait);
    assert_eq!(s.idle_step(Request::Closed), ScannerStep::Quit);
}

#[test]
fn a_scan_goes_through_its_stages() {
    let mut stages = vec![first_stage(false)];
    while stages[stages.len() - 1] != Stage::Over {
        stages.push(next_stage(stages[stages.len() - 1], false));
    }
    assert_eq!(
        stages,
        vec![
            Stage::Announcements,
            Stage::Names,
            Stage::Descriptions,
            Stage::Services,
            Stage::Options,
            Stage::Pages,
            Stage::Judgement,
            Stage::Conclusion,
            Stage::Over
        ]
    );
    assert_eq!(first_stage(true), Stage::Over);
    assert_eq!(next_stage(Stage::Pages, true), Stage::Over);
    assert_eq!(next_stage(Stage::Judgement, true), Stage::Conclusion);
    assert!(asks_again(5999, 8) && !asks_again(6000, 8) && !asks_again(0, 1));
}

#[test]
fn details_and_the_clock() {
    let mut d = blank();
    assert!(d.is_empty());
    d.set("k", "v");
    d.set_new("k", "w");
    assert_eq!(d.get("k").unwrap(), "v");
    assert!(d.get("x").is_none());
    assert!(!d.is_empty());
    assert_eq!(unix_seconds(None), 0);
    assert_eq!(unix_seconds(Some(9)), 9);
    assert!(default_unix_now() > 1_600_000_000);
}

#[test]
fn devices_that_were_not_known_are_told() {
    let mut board = DeviceBoard::new();
    board.insert(ip(9), see_device("00:1A:2B:00:00:09".to_string(), "Acme".to_string(), DASH.to_string(), now()));
    board.insert(ip(5), see_device("00:1A:2B:00:00:05".to_string(), "Acme".to_string(), DASH.to_string(), now()));
    board.insert(ip(7), see_device("00:1A:2B:00:00:07".to_string(), "Bolt".to_string(), DASH.to_string(), now()));
    let none: Vec<String> = vec![];
    assert_eq!(new_device_alerts(&board, &None), none);
    let mut known: KeySet<IpAddr> = KeySet::new();
    known.insert(ip(5));
    assert_eq!(
        new_device_alerts(&board, &Some(known)),
        vec![
            "New device since the last baseline: 192.168.1.7 (00:1A:2B:00:00:07, Bolt)",
            "New device since the last baseline: 192.168.1.9 (00:1A:2B:00:00:09, Acme)",
        ]
    );
}

#[test]
fn names_are_searched_in_turn() {
    let link = IpAddr::V6(0xfe80_0000_0000_0000_0000_0000_0000_0007);
    let mut board = DeviceBoard::new();
    board.insert(link, see_device("00:1A:2B:00:00:07".to_string(), "v".to_string(), DASH.to_string(), now()));
    board.insert(ip(7), see_device("00:1A:2B:00:00:07".to_string(), "v".to_string(), "twin".to_string(), now()));
    let mut announced: Table<IpAddr, String> = Table::new();
    let mut printed: Table<IpAddr, String> = Table::new();
    printed.insert(link, "printed".to_string());
    printed.insert(ip(8), "printed".to_string());
    assert!(matches!(search_name(&board, &link, &announced, &printed), NameSearch::Found(n) if n == "twin"));
    assert!(matches!(search_name(&board, &ip(8), &announced, &printed), NameSearch::Found(n) if n == "printed"));
    assert!(matches!(search_name(&board, &ip(9), &announced, &printed), NameSearch::AskHost));
    let other = IpAddr::V6(0xfe80_0000_0000_0000_0000_0000_0000_0008);
    assert!(matches!(search_name(&board, &other, &announced, &printed), NameSearch::Missing));
    announced.insert(link, "told".to_string());
    announced.insert(ip(8), "told".to_string());
    assert!(matches!(search_name(&board, &link, &announced, &printed), NameSearch::Found(n) if n == "told"));
    assert!(matches!(search_name(&board, &ip(8), &announced, &printed), NameSearch::Found(n) if n == "told"));
}

#[test]
fn queries_are_read_back() {
    let service = "_airplay._tcp.local";
    let p = build_mdns_service_query(service, 7);
    assert_eq!(p.len(), 18 + service.len());
    assert_eq!(read_mdns_name(&p, 12), Some((service.to_string(), 14 + service.len())));
}

#[test]
fn baseline_files_stay_in_their_directory() {
    assert_eq!(baseline_file_name("../a\\b c.d"), "___a_b_c_d.json");
}

#[test]
fn devices_stay_in_this_network() {
    let mut board = DeviceBoard::new();
    let mut found: Table<IpAddr, DeviceInfo> = Table::new();
    found.insert(ip(5), see_device("00:1A:2B:00:00:05".to_string(), "Acme".to_string(), DASH.to_string(), now()));
    merge_scan(&mut board, &found, now());
    let mut names: Table<IpAddr, String> = Table::new();
    names.insert(ip(6), "den".to_string());
    names.insert(v4(8, 8, 8, 8), "far".to_string());
    add_announced(&mut board, &names, now());
    take_last_names(&mut board, &names, now());
    let mut ips = board.ips();
    ips.sort();
    assert_eq!(ips, vec![ip(5), ip(6)]);
    assert_eq!(baseline_of(&board).len(), 2);
}
