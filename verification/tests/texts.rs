//! Texts, addresses, numbers and names.

use unicode_width::UnicodeWidthStr;
use vora_recon::device::DeviceInfo;
use vora_recon::formatting::{
    cut_to, filter_label, format_bytes, format_duration, format_endpoint, format_endpoint_labeled,
    format_last_seen, format_port, format_size, format_uptime, format_with_commas, is_steady, truncate_str,
};
use vora_recon::geoip::{format_geo_tag, geo_from_reply, geo_url, is_city_readable, GeoInfo, GeoReply};
use vora_recon::hostname::{clean_hostname, is_worth_showing, strip_duplicate_parens, DASH};
use vora_recon::net::{
    ip_string, is_local_ip, is_local_or_multicast, is_multicast, is_noise_address, is_private_ip,
    mac_string, parse_v4, v4, IpAddr,
};
use vora_recon::order::{order_by, order_down, rank, window_of};
use vora_recon::packet::ProtocolFilter;
use vora_recon::table::{KeySet, Table};
use vora_recon::text::{
    after_last, before_part, chars_of, cut, dec_text, drop_char, drop_prefixes, drop_suffixes,
    has_part, hex_text, join_texts, line_texts, padded_right, parse_u8, split_chars,
    trim, word_texts,
};

#[test]
fn addresses_have_their_usual_texts() {
    let v6: [(u128, &str); 12] = [
        (0x0, "::"),
        (0x1, "::1"),
        (0xffff0a000001, "::ffff:10.0.0.1"),
        (0xa000001, "::a00:1"),
        (0xfe800000000000000000000000000001, "fe80::1"),
        (0x20010db8000000000001000000000001, "2001:db8::1:0:0:1"),
        (0x20010db8000000010001000100010001, "2001:db8:0:1:1:1:1:1"),
        (0x10000000000020000000000000003, "1:0:0:2::3"),
        (0x10000000000020003000000000004, "1::2:3:0:0:4"),
        (0xff0200000000000000000000000000fb, "ff02::fb"),
        (0x20010db8000000000000000000000000, "2001:db8::"),
        (0xffffffffffffffffffffffffffffffff, "ffff:ffff:ffff:ffff:ffff:ffff:ffff:ffff"),
    ];
    for (n, text) in v6 {
        assert_eq!(ip_string(&IpAddr::V6(n)), text);
    }
    assert_eq!(ip_string(&IpAddr::V4(0)), "0.0.0.0");
    assert_eq!(ip_string(&IpAddr::V4(0xc0a8_0001)), "192.168.0.1");
    assert_eq!(ip_string(&IpAddr::V4(u32::MAX)), "255.255.255.255");
}

#[test]
fn addresses_are_read() {
    assert_eq!(parse_v4("1.2.3.4"), Some(v4(1, 2, 3, 4)));
    assert_eq!(parse_v4("255.255.255.255"), Some(v4(255, 255, 255, 255)));
    assert_eq!(parse_v4("0.0.0.0"), Some(v4(0, 0, 0, 0)));
    for s in [
        "01.2.3.4", "1.2.3", "1.2.3.4.5", "256.1.1.1", "1.2.3.4 ", "", "a.b.c.d", "1..2.3",
        "1.2.3.0004", "+1.2.3.4",
    ] {
        assert_eq!(parse_v4(s), None, "{}", s);
    }
}

#[test]
fn an_address_is_read_back_from_its_text() {
    for n in [0u32, 1, 256, 0x0a01_0203, 0xc0a8_01ff, u32::MAX] {
        assert_eq!(parse_v4(&ip_string(&IpAddr::V4(n))), Some(IpAddr::V4(n)));
    }
}

#[test]
fn address_ranges() {
    assert!(is_private_ip(&v4(192, 168, 0, 1)));
    assert!(is_private_ip(&v4(10, 255, 0, 1)));
    assert!(is_private_ip(&v4(172, 16, 0, 1)));
    assert!(is_private_ip(&v4(172, 31, 255, 255)));
    assert!(!is_private_ip(&v4(172, 32, 0, 0)));
    assert!(!is_private_ip(&v4(172, 15, 0, 0)));
    assert!(!is_private_ip(&v4(192, 169, 0, 1)));
    assert!(!is_private_ip(&v4(127, 0, 0, 1)));
    assert!(!is_private_ip(&IpAddr::V6(1)));
    assert!(is_local_ip(&v4(169, 254, 1, 1)));
    assert!(!is_local_ip(&v4(169, 253, 1, 1)));
    assert!(is_local_or_multicast(&v4(127, 0, 0, 1)));
    assert!(is_local_or_multicast(&v4(239, 1, 2, 3)));
    assert!(is_local_or_multicast(&v4(255, 255, 255, 255)));
    assert!(!is_local_or_multicast(&v4(8, 8, 8, 8)));
    assert!(is_multicast(&v4(224, 0, 0, 1)));
    assert!(!is_multicast(&v4(240, 0, 0, 1)));
    assert!(is_multicast(&IpAddr::V6(0xff02_0000_0000_0000_0000_0000_0000_00fb)));
    assert!(is_noise_address(&v4(192, 168, 1, 255)));
    assert!(is_noise_address(&v4(192, 168, 1, 0)));
    assert!(!is_noise_address(&v4(192, 168, 1, 1)));
}

#[test]
fn hardware_addresses() {
    assert_eq!(mac_string(&[0xaa, 0xbb, 0x0c, 0, 1, 255], ":"), "AA:BB:0C:00:01:FF");
    assert_eq!(mac_string(&[0xaa, 0xbb, 0x0c, 0, 1, 255], "-"), "AA-BB-0C-00-01-FF");
}

#[test]
fn parts_of_texts() {
    assert_eq!(after_last("C:\\a\\b.exe", '\\'), "b.exe");
    assert_eq!(after_last("abc", '\\'), "abc");
    assert_eq!(before_part("host._tcp.local", "._tcp"), "host");
    assert_eq!(before_part("host", "._tcp"), "host");
    assert_eq!(drop_suffixes("a.local.local", ".local"), "a");
    assert_eq!(drop_prefixes("..a", "."), "a");
    assert_eq!(drop_char("a:b:c", ':'), "abc");
    assert_eq!(cut("aéb", 3), "aé");
    assert!(has_part("abcabd", "abd"));
    assert!(!has_part("abcab", "abd"));
    assert!(has_part("x", ""));
    assert_eq!(split_chars(&chars_of("a,,b"), ','), vec!["a", "", "b"]);
    assert_eq!(join_texts(&vec!["a".to_string(), "".to_string(), "b".to_string()], ","), "a,,b");
    assert_eq!(word_texts("  a \t bc\n"), vec!["a", "bc"]);
    assert_eq!(padded_right("ab", 4), format!("{:<4}", "ab"));
    assert_eq!(padded_right("abcdef", 4), "abcdef");
}

#[test]
fn splitting_and_joining_are_inverse() {
    for s in ["", ",", "a,b", ",,a,", "abc"] {
        assert_eq!(join_texts(&split_chars(&chars_of(s), ','), ","), s);
    }
}

#[test]
fn texts_are_trimmed_and_cut_as_std_does() {
    for s in ["", "  ", " a b ", "\t\u{2003}x\u{a0}\n", "x", "\u{200b}x"] {
        assert_eq!(trim(s), s.trim());
        let lines: Vec<String> = s.lines().map(|l| l.to_string()).collect();
        assert_eq!(line_texts(s), lines);
    }
    for s in ["a\nb\r\nc", "a\n", "\n\n", "a\r", "\r\n"] {
        let lines: Vec<String> = s.lines().map(|l| l.to_string()).collect();
        assert_eq!(line_texts(s), lines);
    }
}

#[test]
fn numbers_as_texts() {
    for n in [0u64, 9, 10, 99, 12345, u64::MAX] {
        assert_eq!(dec_text(n), n.to_string());
        assert_eq!(hex_text(n), format!("{:x}", n));
    }
    for s in ["0", "255", "256", "007", "", "-1", "+5", "x", "+"] {
        assert_eq!(parse_u8(s), s.parse::<u8>().ok(), "{}", s);
    }
}

#[test]
fn bytes_are_written_as_floats_would_be() {
    for n in [
        0u64, 1, 999, 1000, 1023, 1024, 1025, 1075, 1126, 1127, 1536, 1587, 10_000, 1_048_575,
        1_048_576, 1_100_000, 5_242_880, 1_073_741_823, 1_073_741_824, 9_999_999_999,
        123_456_789_012_345, 9_007_199_254_740_993, u64::MAX - 1, u64::MAX,
    ] {
        let f = n as f64;
        let size = if n >= 1024 * 1024 * 1024 {
            format!("{:.2} GB", f / (1024.0 * 1024.0 * 1024.0))
        } else if n >= 1024 * 1024 {
            format!("{:.2} MB", f / (1024.0 * 1024.0))
        } else if n >= 1024 {
            format!("{:.2} KB", f / 1024.0)
        } else {
            format!("{} B", n)
        };
        assert_eq!(format_size(n), size);
        let short = if n < 1024 {
            format!("{}B", n)
        } else if n < 1_048_576 {
            format!("{:.1}KB", f / 1024.0)
        } else {
            format!("{:.1}MB", f / 1_048_576.0)
        };
        assert_eq!(format_bytes(n), short);
    }
}

#[test]
fn other_numbers() {
    assert_eq!(format_with_commas(0), "0");
    assert_eq!(format_with_commas(999), "999");
    assert_eq!(format_with_commas(1000), "1,000");
    assert_eq!(format_with_commas(1_002_003), "1,002,003");
    assert_eq!(format_uptime(3661), "01:01:01");
    assert_eq!(format_uptime(360_000), "100:00:00");
    assert_eq!(format_duration(59), "59s");
    assert_eq!(format_duration(61), "1m1s");
    assert_eq!(format_duration(3660), "1h1m");
}

#[test]
fn ports_and_filters() {
    assert_eq!(format_port(443), "HTTPS");
    assert_eq!(format_port(53), "DNS");
    assert_eq!(format_port(12345), "12345");
    assert_eq!(filter_label(&ProtocolFilter::All), "ALL");
    assert_eq!(filter_label(&ProtocolFilter::Icmp), "ICMP");
}

#[test]
fn endpoints() {
    let ip = v4(192, 168, 1, 7);
    assert_eq!(format_endpoint(&ip, Some(80), false, ""), "192.168.1.7:80");
    assert_eq!(format_endpoint(&ip, None, false, ""), "192.168.1.7");
    assert_eq!(format_endpoint(&ip, Some(80), true, "192.168.1."), "7:80");
    assert_eq!(format_endpoint_labeled(&ip, Some(443), false, ""), "192.168.1.7:HTTPS");
}

fn seen(steady: u64, unix: u64) -> DeviceInfo {
    DeviceInfo {
        mac: "AA:BB:CC:00:11:22".to_string(),
        vendor: "Maker".to_string(),
        hostname: "host".to_string(),
        miss_count: 0,
        last_seen: steady,
        last_seen_unix: unix,
    }
}

#[test]
fn last_sightings() {
    let second: u64 = 1_000_000_000;
    let now = 100_000 * second;
    assert_eq!(format_last_seen(&seen(now - 5 * second, 0), now, 0), "Online");
    assert_eq!(format_last_seen(&seen(now - 45 * second, 0), now, 0), "45s ago");
    assert_eq!(format_last_seen(&seen(now - 130 * second, 0), now, 0), "2m ago");
    let mut gone = seen(0, 1_000_000);
    gone.miss_count = 1;
    assert_eq!(format_last_seen(&gone, now, 1_000_030), "30s ago");
    assert_eq!(format_last_seen(&gone, now, 1_000_060), "1m ago");
    assert_eq!(format_last_seen(&gone, now, 1_007_200), "2h ago");
    assert_eq!(format_last_seen(&gone, now, 1_259_200), "3d ago");
    assert_eq!(format_last_seen(&gone, now, 0), "0s ago");
}

#[test]
fn texts_are_cut_by_their_width() {
    assert_eq!(truncate_str("hello", 10), "hello");
    assert_eq!(truncate_str("hello world", 8), "hello...");
    let wide = truncate_str("漢字漢字漢字", 7);
    assert_eq!(wide, "漢字...");
    assert_eq!(wide.as_str().width(), 7);
}

#[test]
fn names_are_cleaned() {
    assert_eq!(clean_hostname("  printer.local  "), "printer.local");
    assert_eq!(clean_hostname(""), "");
    assert_eq!(clean_hostname("sonosRINCON_ABC123"), "Sonos Device");
    assert_eq!(clean_hostname("Google-TV-Streamer-xyz"), "Google TV Streamer");
    assert_eq!(clean_hostname("AirPlay"), DASH);
    assert_eq!(clean_hostname("12345678-1234-1234-1234-123456789abc"), DASH);
    assert_eq!(clean_hostname("esp-a1b2c3"), DASH);
    assert_eq!(clean_hostname("BRW001122"), DASH);
    assert_eq!(clean_hostname("dp-0a1b2c3"), DASH);
    assert_eq!(clean_hostname("0123abcd-0123abcd"), DASH);
    assert_eq!(clean_hostname("HomePodSensor 123"), DASH);
    assert_eq!(clean_hostname("Cam (10.0.0.1) (10.0.0.2)"), "Cam");
    assert_eq!(clean_hostname("Cam (ECB601)"), "Cam");
    assert_eq!(clean_hostname("Cam (floodlight_pro)"), "Cam");
    assert_eq!(clean_hostname("Cam (0, 1, 2)"), "Cam");
    assert_eq!(clean_hostname("0,1,2"), DASH);
    assert_eq!(clean_hostname("fe80::1"), DASH);
    assert_eq!(clean_hostname("[::1]"), DASH);
    assert_eq!(clean_hostname("192.168.1.20 - Kitchen - RINCON_ABCDEF0123456"), "Kitchen");
    assert_eq!(clean_hostname("NPI12AB34"), DASH);
    assert_eq!(clean_hostname("Living Room TV"), "Living Room TV");
    assert_eq!(clean_hostname("0123456789abcdef"), DASH);
    assert_eq!(strip_duplicate_parens("Den (Den)"), "Den");
    assert_eq!(strip_duplicate_parens("Den (TV)"), "Den (TV)");
    assert!(is_worth_showing("host"));
    assert!(!is_worth_showing(DASH));
    assert!(!is_worth_showing("Resolving..."));
    assert!(!is_worth_showing(""));
}

fn place(city: Option<&str>, region: Option<&str>) -> GeoInfo {
    GeoInfo {
        country_code: "US".to_string(),
        city: city.map(|s| s.to_string()),
        region: region.map(|s| s.to_string()),
        org: "Org".to_string(),
    }
}

#[test]
fn places() {
    assert_eq!(geo_url(&v4(8, 8, 8, 8)), "http://ip-api.com/json/8.8.8.8?fields=status,countryCode,region,city,org");
    let reply = |status: &str| GeoReply {
        status: status.to_string(),
        country_code: Some("DE".to_string()),
        region: None,
        city: Some("Berlin".to_string()),
        org: None,
    };
    assert!(geo_from_reply(reply("fail")).is_none());
    let g = geo_from_reply(reply("success")).unwrap();
    assert_eq!(g.country_code, "DE");
    assert_eq!(g.city.as_deref(), Some("Berlin"));
    let here = place(Some("Dallas"), Some("TX"));
    assert!(is_city_readable(&here));
    assert_eq!(format_geo_tag(&here), "[Dallas, TX]");
    assert_eq!(format_geo_tag(&place(Some("Dallas"), None)), "[Dallas, US]");
    assert_eq!(format_geo_tag(&place(Some(""), Some("TX"))), "[US]");
    assert_eq!(format_geo_tag(&place(None, Some("TX"))), "[US]");
    assert_eq!(format_geo_tag(&place(Some("Aaaaabbbbbcccccddddd"), None)), "[Aaaaabbbbbccccc, US]");
    assert!(!is_city_readable(&place(Some("aaaaaaaaaaaaaaéa"), None)));
}

#[test]
fn keys_are_put_in_order() {
    let keys: Vec<u64> = vec![3, 1, 3, 2];
    assert_eq!(order_by(&keys), vec![1, 3, 0, 2]);
    assert_eq!(order_down(&keys), vec![0, 2, 3, 1]);
    assert_eq!(rank(&keys), vec![0, 2, 3, 1]);
}

#[test]
fn windows_on_lists() {
    let w = window_of(10, 4, false, 0);
    assert_eq!((w.skip, w.shown), (6, 4));
    let w = window_of(10, 4, true, 2);
    assert_eq!((w.skip, w.shown), (4, 4));
    let w = window_of(2, 4, false, 0);
    assert_eq!((w.skip, w.shown), (0, 2));
}

#[test]
fn tables_and_sets() {
    let mut t: Table<u16, u64> = Table::new();
    t.insert(5, 1);
    t.insert(6, 2);
    t.insert(5, 3);
    assert_eq!(t.len(), 2);
    assert_eq!(t.get(&5), Some(&3));
    assert_eq!(t.entry(0), (&5, &3));
    t.remove(&5);
    assert_eq!(t.get(&5), None);
    assert_eq!(t.len(), 1);
    let mut s: KeySet<u16> = KeySet::new();
    s.insert(1);
    s.insert(1);
    s.insert(2);
    assert_eq!(s.len(), 2);
    assert!(s.contains(&2));
    assert_eq!(s.at(0), &1);
}

#[test]
fn texts_with_joined_letters_are_cut() {
    assert!(is_steady("a \u{2192} \u{2014} \u{6f22}") && !is_steady("\u{644}\u{627}") && !is_steady("\r"));
    assert_eq!(truncate_str("\u{644}\u{627}", 2), "\u{644}\u{627}");
    assert_eq!(truncate_str("\u{644}\u{627}", 1), "\u{644}");
    assert_eq!(cut_to("\u{644}\u{627}", 5), ("\u{644}\u{627}".to_string(), 2));
    let family = "\u{1f468}\u{200d}\u{1f469}\u{200d}\u{1f467}";
    assert_eq!(cut_to(&format!("{family}ab"), 3), (format!("{family}a"), 3));
    assert_eq!(cut_to(&format!("a{family}"), 2), ("a".to_string(), 1));
    assert_eq!(cut_to("\u{5d0}\r\nb", 2), ("\u{5d0}\r\n".to_string(), 2));
    assert_eq!(cut_to("\u{5e2}\u{5e8}\u{5d1}\u{5d9}", 2), ("\u{5e2}\u{5e8}".to_string(), 2));
    assert_eq!(cut_to("\u{5e2}\u{5e8}\u{5d1}\u{5d9}", 0), ("".to_string(), 0));
    assert_eq!(truncate_str("\u{5e2}\u{5e8}\u{5d1}\u{5d9}\u{5ea}", 4), "\u{5e2}...");
    assert_eq!(cut_to("caf\u{e9} au lait", 4), ("caf\u{e9}".to_string(), 4));
}
