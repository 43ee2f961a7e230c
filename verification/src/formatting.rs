//! Numbers, times, addresses and long texts as they are shown.

use vstd::prelude::*;
use vstd::string::*;

use crate::device::{DeviceInfo, InfoView};
use crate::net;
use crate::net::{IpAddr, ip_string, segment_list};
use crate::packet::ProtocolFilter;
use crate::text;
use crate::text::{chars_of, dec_text, digit_char, hex_text, part, starts_with, zero_padded};
use crate::traffic::SECOND;

verus! {

// ---------------------------------------------------------------------------
// Amounts of data
// ---------------------------------------------------------------------------

/// `n / d` to the nearest whole number, and to the even one of two that are
/// equally near.
pub open spec fn nearest(n: nat, d: nat) -> nat {
    let q = n / d;
    let r = n % d;
    if 2 * r > d || 2 * r == d && q % 2 == 1 {
        q + 1
    } else {
        q
    }
}

/// The distance of the numbers around `n` that have fifty-three significant bits.
pub open spec fn spacing(n: u64) -> u64 {
    if n < 0x20_0000_0000_0000 {
        1
    } else if n < 0x40_0000_0000_0000 {
        2
    } else if n < 0x80_0000_0000_0000 {
        4
    } else if n < 0x100_0000_0000_0000 {
        8
    } else if n < 0x200_0000_0000_0000 {
        16
    } else if n < 0x400_0000_0000_0000 {
        32
    } else if n < 0x800_0000_0000_0000 {
        64
    } else if n < 0x1000_0000_0000_0000 {
        128
    } else if n < 0x2000_0000_0000_0000 {
        256
    } else if n < 0x4000_0000_0000_0000 {
        512
    } else if n < 0x8000_0000_0000_0000 {
        1024
    } else {
        2048
    }
}

/// The nearest number to `n` that has fifty-three significant bits.
pub open spec fn significant(n: u64) -> nat {
    nearest(n as nat, spacing(n) as nat) * spacing(n) as nat
}

fn round_div(n: u128, d: u128) -> (r: u128)
    requires
        0 < d <= 0x1_0000_0000_0000,
        n <= 0x1_0000_0000_0000_0000_0000_0000,
    ensures
        r == nearest(n as nat, d as nat),
        r <= n + 1,
{
    let q: u128 = n / d;
    let r: u128 = n % d;
    assert(q <= n) by (nonlinear_arith)
        requires
            q == n / d,
            d > 0,
    ;
    if 2 * r > d || 2 * r == d && q % 2 == 1 {
        q + 1
    } else {
        q
    }
}

/// `n / d` to the nearest whole number, and to the even one of two that are
/// equally near.
pub fn nearest_of(n: u64, d: u64) -> (r: u64)
    requires
        0 < d <= 0x1_0000_0000_0000,
        n < u64::MAX,
    ensures
        r == nearest(n as nat, d as nat),
{
    round_div(n as u128, d as u128) as u64
}

fn spacing_of(n: u64) -> (r: u64)
    ensures
        r == spacing(n),
        1 <= r <= 2048,
{
    if n < 0x20_0000_0000_0000 {
        1
    } else if n < 0x40_0000_0000_0000 {
        2
    } else if n < 0x80_0000_0000_0000 {
        4
    } else if n < 0x100_0000_0000_0000 {
        8
    } else if n < 0x200_0000_0000_0000 {
        16
    } else if n < 0x400_0000_0000_0000 {
        32
    } else if n < 0x800_0000_0000_0000 {
        64
    } else if n < 0x1000_0000_0000_0000 {
        128
    } else if n < 0x2000_0000_0000_0000 {
        256
    } else if n < 0x4000_0000_0000_0000 {
        512
    } else if n < 0x8000_0000_0000_0000 {
        1024
    } else {
        2048
    }
}

fn significant_of(n: u64) -> (r: u128)
    ensures
        r == significant(n),
        r <= 0x1_0000_0000_0000_0000 * 4096,
{
    let s: u128 = spacing_of(n) as u128;
    let q: u128 = round_div(n as u128, s);
    assert(q * s <= 0x1_0000_0000_0000_0000 * 4096) by (nonlinear_arith)
        requires
            q <= n + 1,
            n <= 0xFFFF_FFFF_FFFF_FFFF,
            s <= 2048,
    ;
    assert(q * s >= 0) by (nonlinear_arith);
    q * s
}

/// An amount in units with one decimal.
pub open spec fn one_decimal(n: u64, unit: nat) -> Seq<char> {
    let v = nearest(significant(n) * 10, unit);
    text::dec(v / 10) + "."@ + text::dec(v % 10)
}

/// An amount in units with two decimals.
pub open spec fn two_decimals(n: u64, unit: nat) -> Seq<char> {
    let v = nearest(significant(n) * 100, unit);
    text::dec(v / 100) + "."@ + text::zero_pad(text::dec(v % 100), 2)
}

/// A number of up to thirty-nine digits in decimal.
fn dec_wide(n: u128) -> (r: String)
    ensures
        r@ == text::dec(n as nat),
    decreases n,
{
    if n < 10 {
        let mut r = String::new();
        r.push(digit_char(n as u8));
        assert(r@ =~= text::dec(n as nat));
        r
    } else {
        let mut r = dec_wide(n / 10);
        r.push(digit_char((n % 10) as u8));
        r
    }
}

fn with_one_decimal(n: u64, unit: u64) -> (r: String)
    requires
        1024 <= unit <= 0x1_0000_0000_0000,
    ensures
        r@ == one_decimal(n, unit as nat),
{
    let v: u128 = round_div(significant_of(n) * 10, unit as u128);
    let mut r = dec_wide(v / 10);
    r.append(".");
    r.append(dec_wide(v % 10).as_str());
    r
}

fn with_two_decimals(n: u64, unit: u64) -> (r: String)
    requires
        1024 <= unit <= 0x1_0000_0000_0000,
    ensures
        r@ == two_decimals(n, unit as nat),
{
    let v: u128 = round_div(significant_of(n) * 100, unit as u128);
    let mut r = dec_wide(v / 100);
    r.append(".");
    r.append(zero_padded(dec_wide(v % 100).as_str(), 2).as_str());
    r
}

/// An amount of data in bytes, kilobytes or megabytes.
pub open spec fn bytes_text(n: u64) -> Seq<char> {
    if n < 1024 {
        text::dec(n as nat) + "B"@
    } else if n < 1_048_576 {
        one_decimal(n, 1024) + "KB"@
    } else {
        one_decimal(n, 1_048_576) + "MB"@
    }
}

/// An amount of data in bytes, kilobytes or megabytes.
pub fn format_bytes(n: u64) -> (r: String)
    ensures
        r@ == bytes_text(n),
{
    let mut r: String;
    if n < 1024 {
        r = dec_text(n);
        r.append("B");
    } else if n < 1_048_576 {
        r = with_one_decimal(n, 1024);
        r.append("KB");
    } else {
        r = with_one_decimal(n, 1_048_576);
        r.append("MB");
    }
    r
}

/// An amount of data in bytes up to gigabytes, with two decimals.
pub open spec fn size_text(n: u64) -> Seq<char> {
    if n >= 1_073_741_824 {
        two_decimals(n, 1_073_741_824) + " GB"@
    } else if n >= 1_048_576 {
        two_decimals(n, 1_048_576) + " MB"@
    } else if n >= 1024 {
        two_decimals(n, 1024) + " KB"@
    } else {
        text::dec(n as nat) + " B"@
    }
}

/// An amount of data in bytes up to gigabytes, with two decimals.
pub fn format_size(bytes: u64) -> (r: String)
    ensures
        r@ == size_text(bytes),
{
    let mut r: String;
    if bytes >= 1_073_741_824 {
        r = with_two_decimals(bytes, 1_073_741_824);
        r.append(" GB");
    } else if bytes >= 1_048_576 {
        r = with_two_decimals(bytes, 1_048_576);
        r.append(" MB");
    } else if bytes >= 1024 {
        r = with_two_decimals(bytes, 1024);
        r.append(" KB");
    } else {
        r = dec_text(bytes);
        r.append(" B");
    }
    r
}

/// A number in decimal with a comma before every third digit from its end.
pub open spec fn with_commas(n: nat) -> Seq<char>
    decreases n,
{
    if n < 1000 {
        text::dec(n)
    } else {
        with_commas(n / 1000) + ","@ + text::zero_pad(text::dec(n % 1000), 3)
    }
}

/// A number in decimal with a comma before every third digit from its end.
pub fn format_with_commas(n: u64) -> (r: String)
    ensures
        r@ == with_commas(n as nat),
    decreases n,
{
    if n < 1000 {
        dec_text(n)
    } else {
        let mut r = format_with_commas(n / 1000);
        r.append(",");
        r.append(zero_padded(dec_text(n % 1000).as_str(), 3).as_str());
        r
    }
}

// ---------------------------------------------------------------------------
// Times
// ---------------------------------------------------------------------------

/// At least two digits.
pub open spec fn at_least_two(n: nat) -> Seq<char> {
    text::zero_pad(text::dec(n), 2)
}

/// Seconds as hours, minutes and seconds with colons between them.
pub open spec fn uptime_text(secs: u64) -> Seq<char> {
    at_least_two((secs / 3600) as nat) + ":"@ + at_least_two(((secs % 3600) / 60) as nat) + ":"@
        + at_least_two((secs % 60) as nat)
}

/// Seconds as hours, minutes and seconds with colons between them.
pub fn format_uptime(secs: u64) -> (r: String)
    ensures
        r@ == uptime_text(secs),
{
    let mut r = zero_padded(dec_text(secs / 3600).as_str(), 2);
    r.append(":");
    r.append(zero_padded(dec_text((secs % 3600) / 60).as_str(), 2).as_str());
    r.append(":");
    r.append(zero_padded(dec_text(secs % 60).as_str(), 2).as_str());
    r
}

/// Seconds in their two greatest units.
pub open spec fn duration_text(secs: u64) -> Seq<char> {
    if secs < 60 {
        text::dec(secs as nat) + "s"@
    } else if secs < 3600 {
        text::dec((secs / 60) as nat) + "m"@ + text::dec((secs % 60) as nat) + "s"@
    } else {
        text::dec((secs / 3600) as nat) + "h"@ + text::dec(((secs % 3600) / 60) as nat) + "m"@
    }
}

/// Seconds in their two greatest units.
pub fn format_duration(secs: u64) -> (r: String)
    ensures
        r@ == duration_text(secs),
{
    if secs < 60 {
        let mut r = dec_text(secs);
        r.append("s");
        r
    } else if secs < 3600 {
        let mut r = dec_text(secs / 60);
        r.append("m");
        r.append(dec_text(secs % 60).as_str());
        r.append("s");
        r
    } else {
        let mut r = dec_text(secs / 3600);
        r.append("h");
        r.append(dec_text((secs % 3600) / 60).as_str());
        r.append("m");
        r
    }
}

/// Nanoseconds from one time of the steady clock to another, not less than zero.
pub open spec fn since(now: u64, then: u64) -> u64 {
    if now > then {
        (now - then) as u64
    } else {
        0
    }
}

/// How long ago a device was seen: by the steady clock while it answers, by
/// the wall clock once it was missed.
pub open spec fn seen_text(dev: InfoView, now: u64, now_unix: u64) -> Seq<char> {
    if dev.miss_count == 0 {
        let secs = since(now, dev.last_seen) / SECOND;
        if secs < 10 {
            "Online"@
        } else if secs < 60 {
            text::dec(secs as nat) + "s ago"@
        } else {
            text::dec((secs / 60) as nat) + "m ago"@
        }
    } else {
        let secs = since(now_unix, dev.last_seen_unix);
        if secs < 60 {
            text::dec(secs as nat) + "s ago"@
        } else if secs < 3600 {
            text::dec((secs / 60) as nat) + "m ago"@
        } else if secs < 86400 {
            text::dec((secs / 3600) as nat) + "h ago"@
        } else {
            text::dec((secs / 86400) as nat) + "d ago"@
        }
    }
}

fn number_and(n: u64, unit: &str) -> (r: String)
    ensures
        r@ == text::dec(n as nat) + unit@,
{
    let mut r = dec_text(n);
    r.append(unit);
    r
}

/// How long ago a device was seen.
pub fn format_last_seen(dev: &DeviceInfo, now: u64, now_unix: u64) -> (r: String)
    ensures
        r@ == seen_text(dev@, now, now_unix),
{
    if dev.miss_count == 0 {
        let secs: u64 = now.saturating_sub(dev.last_seen) / SECOND;
        if secs < 10 {
            "Online".to_owned()
        } else if secs < 60 {
            number_and(secs, "s ago")
        } else {
            number_and(secs / 60, "m ago")
        }
    } else {
        let secs: u64 = now_unix.saturating_sub(dev.last_seen_unix);
        if secs < 60 {
            number_and(secs, "s ago")
        } else if secs < 3600 {
            number_and(secs / 60, "m ago")
        } else if secs < 86400 {
            number_and(secs / 3600, "h ago")
        } else {
            number_and(secs / 86400, "d ago")
        }
    }
}

// ---------------------------------------------------------------------------
// Ports, filters and addresses
// ---------------------------------------------------------------------------

/// Ports with a name.
pub const PORT_NAMES: [(u16, &'static str); 13] = [
    (21, "FTP"),
    (22, "SSH"),
    (25, "SMTP"),
    (53, "DNS"),
    (80, "HTTP"),
    (110, "POP3"),
    (143, "IMAP"),
    (443, "HTTPS"),
    (1900, "UPnP"),
    (3389, "RDP"),
    (5353, "mDNS"),
    (8009, "Cast"),
    (8080, "HTTP-Alt"),
];

/// The name of a port from place `i` on, or its number.
pub open spec fn port_name(port: u16, i: int) -> Seq<char>
    decreases PORT_NAMES@.len() - i,
{
    if i < 0 || i >= PORT_NAMES@.len() {
        text::dec(port as nat)
    } else if PORT_NAMES@[i].0 == port {
        PORT_NAMES@[i].1@
    } else {
        port_name(port, i + 1)
    }
}

/// The name of a port, or its number.
pub fn format_port(port: u16) -> (r: String)
    ensures
        r@ == port_name(port, 0),
{
    let mut i: usize = 0;
    while i < PORT_NAMES.len()
        invariant
            i <= PORT_NAMES@.len(),
            port_name(port, 0) == port_name(port, i as int),
        decreases PORT_NAMES@.len() - i,
    {
        if PORT_NAMES[i].0 == port {
            return PORT_NAMES[i].1.to_owned();
        }
        i = i + 1;
    }
    dec_text(port as u64)
}

/// The label of a protocol filter.
pub open spec fn filter_name(f: ProtocolFilter) -> Seq<char> {
    match f {
        ProtocolFilter::All => "ALL"@,
        ProtocolFilter::Tcp => "TCP"@,
        ProtocolFilter::Udp => "UDP"@,
        ProtocolFilter::Icmp => "ICMP"@,
    }
}

/// The label of a protocol filter.
pub fn filter_label(f: &ProtocolFilter) -> (r: &'static str)
    ensures
        r@ == filter_name(*f),
{
    match f {
        ProtocolFilter::All => "ALL",
        ProtocolFilter::Tcp => "TCP",
        ProtocolFilter::Udp => "UDP",
        ProtocolFilter::Icmp => "ICMP",
    }
}

/// The short form of an address: without the prefix that all devices share,
/// and the last segment only of an address of the local link.
pub open spec fn short_ip(ip: IpAddr, compressed: bool, prefix: Seq<char>) -> Seq<char> {
    let full = net::ip_text(ip);
    if !compressed {
        full
    } else if prefix.len() > 0 && text::starts(full, prefix) {
        full.skip(prefix.len() as int)
    } else {
        match ip {
            IpAddr::V6(n) if net::segments(n)[0] == 0xfe80 => "fe80::"@ + text::hex(net::segments(n)[7] as nat),
            _ => full,
        }
    }
}

/// The short form of an address.
pub fn short_ip_string(ip: &IpAddr, compressed: bool, prefix: &str) -> (r: String)
    ensures
        r@ == short_ip(*ip, compressed, prefix@),
{
    let full = ip_string(ip);
    if !compressed {
        return full;
    }
    if !prefix.is_empty() && starts_with(full.as_str(), prefix) {
        let c = chars_of(full.as_str());
        let n: usize = chars_of(prefix).len();
        let r = part(c.as_slice(), n, c.len());
        assert(r@ =~= full@.skip(n as int));
        return r;
    }
    match ip {
        IpAddr::V6(n) => {
            let s = segment_list(*n);
            if s[0] == 0xfe80 {
                let mut r = "fe80::".to_owned();
                r.append(hex_text(s[7] as u64).as_str());
                r
            } else {
                full
            }
        },
        IpAddr::V4(_) => full,
    }
}

/// An address and a port.
pub open spec fn endpoint(
    ip: IpAddr,
    port: Option<u16>,
    compressed: bool,
    prefix: Seq<char>,
) -> Seq<char> {
    match port {
        Some(p) => short_ip(ip, compressed, prefix) + ":"@ + text::dec(p as nat),
        None => short_ip(ip, compressed, prefix),
    }
}

/// An address and the name of a port.
pub open spec fn endpoint_labeled(
    ip: IpAddr,
    port: Option<u16>,
    compressed: bool,
    prefix: Seq<char>,
) -> Seq<char> {
    match port {
        Some(p) => short_ip(ip, compressed, prefix) + ":"@ + port_name(p, 0),
        None => short_ip(ip, compressed, prefix),
    }
}

/// An address and a port.
pub fn format_endpoint(ip: &IpAddr, port: Option<u16>, compressed: bool, prefix: &str) -> (r: String)
    ensures
        r@ == endpoint(*ip, port, compressed, prefix@),
{
    let mut r = short_ip_string(ip, compressed, prefix);
    if let Some(p) = port {
        r.append(":");
        r.append(dec_text(p as u64).as_str());
    }
    r
}

/// An address and the name of a port.
pub fn format_endpoint_labeled(
    ip: &IpAddr,
    port: Option<u16>,
    compressed: bool,
    prefix: &str,
) -> (r: String)
    ensures
        r@ == endpoint_labeled(*ip, port, compressed, prefix@),
{
    let mut r = short_ip_string(ip, compressed, prefix);
    if let Some(p) = port {
        r.append(":");
        r.append(format_port(p).as_str());
    }
    r
}

// ---------------------------------------------------------------------------
// Long texts
// ---------------------------------------------------------------------------

/// What `UnicodeSegmentation::graphemes` gives for a text: its extended
/// graphemes.
pub uninterp spec fn graphemes(s: Seq<char>) -> Seq<Seq<char>>;

/// What `UnicodeWidthStr::width` gives for a text: its width in columns.
pub uninterp spec fn columns(s: Seq<char>) -> usize;

/// Characters that have the same width whatever stands beside them: those of
/// the Latin, Greek, Cyrillic, Chinese, Japanese and Korean scripts,
/// punctuation, arrows and mathematical signs, and the signs that frames are
/// drawn with.
pub open spec fn steady(c: char) -> bool {
    &&& c != '\r'
    &&& {
        ||| c < '\u{500}'
        ||| '\u{1E00}' <= c && c < '\u{2300}'
        ||| '\u{2500}' <= c && c < '\u{25A0}'
        ||| '\u{3000}' <= c && c < '\u{A000}'
        ||| '\u{AC00}' <= c && c < '\u{D7A4}'
    }
}

/// The widths of the characters of a text do not depend on each other.
pub open spec fn steady_text(s: Seq<char>) -> bool {
    forall|i: int| 0 <= i < s.len() ==> steady(#[trigger] s[i])
}

/// Whether the widths of the characters of a text do not depend on each other.
pub fn is_steady(s: &str) -> (r: bool)
    ensures
        r == steady_text(s@),
{
    let v = chars_of(s);
    let n: usize = v.len();
    for i in 0..n
        invariant
            n == v@.len(),
            v@ == s@,
            forall|j: int| 0 <= j < i ==> steady(#[trigger] s@[j]),
    {
        let c: char = v[i];
        let known = c < '\u{500}' || '\u{1E00}' <= c && c < '\u{2300}' || '\u{2500}' <= c && c
            < '\u{25A0}' || '\u{3000}' <= c && c < '\u{A000}' || '\u{AC00}' <= c && c
            < '\u{D7A4}';
        if c == '\r' || !known {
            assert(!steady(s@[i as int]));
            return false;
        }
    }
    true
}

/// `UnicodeWidthStr::width`: the width of a text in columns.
#[verifier::external_body]
fn width_of(s: &str) -> (r: usize)
    ensures
        r == columns(s@),
{
    unicode_width::UnicodeWidthStr::width(s)
}

/// `UnicodeSegmentation::graphemes`: the extended graphemes of a text. One
/// behind the other they are the text.
#[verifier::external_body]
fn grapheme_texts(s: &str) -> (r: Vec<String>)
    ensures
        text::texts(r@) == graphemes(s@),
        text::join(text::texts(r@), Seq::empty()) == s@,
{
    unicode_segmentation::UnicodeSegmentation::graphemes(s, true).map(|g| g.to_string()).collect()
}

/// The width of the first `n` of some graphemes.
pub open spec fn total_width(g: Seq<Seq<char>>, n: int) -> int
    decreases n,
{
    if n <= 0 {
        0
    } else {
        total_width(g, n - 1) + columns(g[n - 1])
    }
}

/// The number of graphemes, from the first `n` on, until which they are not
/// wider than `width` columns.
pub open spec fn fitting_count(g: Seq<Seq<char>>, width: usize, n: int) -> int
    decreases g.len() - n,
{
    if n < 0 || n >= g.len() || total_width(g, n + 1) > width {
        n
    } else {
        fitting_count(g, width, n + 1)
    }
}

/// The longest beginning of a text, in whole graphemes, that is not wider than
/// `width` columns, and its width.
pub open spec fn beginning(s: Seq<char>, width: usize) -> (Seq<char>, usize) {
    let n = fitting_count(graphemes(s), width, 0);
    (text::join(graphemes(s).take(n), Seq::empty()), total_width(graphemes(s), n) as usize)
}

/// `UnicodeTruncateStr::unicode_truncate`: the longest beginning of a text, in
/// whole graphemes, that is not wider than `width` columns, and its width. A
/// build with debug assertions also checks there that the widths of the
/// graphemes add up to that of the whole. They do where no character's width
/// depends on its neighbours.
#[verifier::external_body]
fn fit(s: &str, width: usize) -> (r: (String, usize))
    requires
        steady_text(s@),
    ensures
        (r.0@, r.1) == beginning(s@, width),
        r.0@.is_prefix_of(s@),
{
    let (t, n) = unicode_truncate::UnicodeTruncateStr::unicode_truncate(s, width);
    (t.to_string(), n)
}

proof fn lemma_joined_prefix(g: Seq<Seq<char>>, n: int)
    requires
        0 <= n <= g.len(),
    ensures
        text::join(g.take(n), Seq::empty()).is_prefix_of(text::join(g, Seq::empty())),
    decreases g.len(),
{
    if n == g.len() {
        assert(g.take(n) =~= g);
    } else {
        lemma_joined_prefix(g.drop_last(), n);
        assert(g.drop_last().take(n) =~= g.take(n));
        if g.len() == 1 {
            assert(text::join(g.take(0), Seq::<char>::empty()) =~= Seq::<char>::empty());
        }
    }
}

/// The longest beginning of a text, in whole graphemes, that is not wider than
/// `width` columns, and its width.
pub fn cut_to(s: &str, width: usize) -> (r: (String, usize))
    ensures
        (r.0@, r.1) == beginning(s@, width),
        r.0@.is_prefix_of(s@),
{
    if is_steady(s) {
        return fit(s, width);
    }
    let parts = grapheme_texts(s);
    let ghost g = text::texts(parts@);
    let n: usize = parts.len();
    let mut cut = String::new();
    let mut cut_width: usize = 0;
    let mut i: usize = 0;
    assert(cut@ =~= text::join(g.take(0), Seq::empty()));
    while i < n
        invariant_except_break
            n == parts@.len(),
            g == text::texts(parts@),
            i <= n,
            cut@ == text::join(g.take(i as int), Seq::empty()),
            cut_width == total_width(g, i as int),
            cut_width <= width,
            fitting_count(g, width, 0) == fitting_count(g, width, i as int),
        ensures
            i <= n,
            cut@ == text::join(g.take(i as int), Seq::empty()),
            cut_width == total_width(g, i as int),
            fitting_count(g, width, 0) == i,
        decreases n - i,
    {
        let own: usize = width_of(parts[i].as_str());
        assert(g[i as int] == parts@[i as int]@);
        if own > width - cut_width {
            break ;
        }
        proof {
            let t = g.take(i + 1);
            assert(t.drop_last() =~= g.take(i as int));
            assert(t.last() == g[i as int]);
            if i == 0 {
                assert(cut@ =~= Seq::<char>::empty());
                assert(cut@ + g[i as int] =~= text::join(t, Seq::empty()));
            } else {
                assert(cut@ + g[i as int] =~= text::join(t, Seq::empty()));
            }
        }
        cut.append(parts[i].as_str());
        cut_width = cut_width + own;
        i = i + 1;
    }
    proof {
        lemma_joined_prefix(g, i as int);
    }
    (cut, cut_width)
}

/// A text that fits as it is, or a shorter beginning of it with dots behind
/// it. `cut` of width `cut_width` is what fits, `full_width` the width of the
/// whole text, `shorter` what leaves room for the dots.
pub open spec fn shown_part(
    cut: Seq<char>,
    cut_width: usize,
    full_width: usize,
    width: usize,
    shorter: Seq<char>,
) -> Seq<char> {
    if cut_width < full_width && width > 3 {
        shorter + "..."@
    } else {
        cut
    }
}

/// A text that fits as it is, or a shorter beginning of it with dots behind it.
pub fn choose_part(
    cut: String,
    cut_width: usize,
    full_width: usize,
    width: usize,
    shorter: String,
) -> (r: String)
    ensures
        r@ == shown_part(cut@, cut_width, full_width, width, shorter@),
{
    if cut_width < full_width && width > 3 {
        let mut r = shorter;
        r.append("...");
        r
    } else {
        cut
    }
}

/// Three columns less, or none.
pub open spec fn less_three(width: usize) -> usize {
    if width > 3 {
        (width - 3) as usize
    } else {
        0
    }
}

/// A text cut to a width, with dots where something was cut off.
pub open spec fn truncated(s: Seq<char>, width: usize) -> Seq<char> {
    shown_part(
        beginning(s, width).0,
        beginning(s, width).1,
        columns(s),
        width,
        beginning(s, less_three(width)).0,
    )
}

/// A text cut to a width, with dots where something was cut off.
pub fn truncate_str(s: &str, width: usize) -> (r: String)
    ensures
        r@ == truncated(s@, width),
        r@.is_prefix_of(s@) || exists|n: int| 0 <= n <= s@.len() && r@ == #[trigger] s@.take(n)
            + "..."@,
{
    let (cut, cut_width) = cut_to(s, width);
    let (shorter, _) = cut_to(s, width.saturating_sub(3));
    let full: usize = width_of(s);
    assert(shorter@ =~= s@.take(shorter@.len() as int));
    choose_part(cut, cut_width, full, width, shorter)
}

// ---------------------------------------------------------------------------
// How numbers read
// ---------------------------------------------------------------------------

/// The two digits of a number below a hundred.
pub open spec fn two_digits(n: int) -> Seq<char> {
    seq![(48 + n / 10) as char, (48 + n % 10) as char]
}

proof fn lemma_two_digits(n: nat)
    requires
        n < 100,
    ensures
        text::zero_pad(text::dec(n), 2) == two_digits(n as int),
{
    if n >= 10 {
        text::law_decimal(n / 10, n % 10);
        text::law_decimal(0, n / 10);
        assert(10 * (n / 10) + n % 10 == n);
        assert(text::dec(n) =~= two_digits(n as int));
    } else {
        text::law_decimal(0, n);
        assert(text::zero_pad(text::dec(n), 2) =~= two_digits(n as int));
    }
}

proof fn lemma_rounded(n: u64, factor: nat, unit: nat)
    requires
        n < 0x20_0000_0000_0000,
        unit > 0,
    ensures
        ({
            let v = nearest(significant(n) * factor, unit);
            2 * (v * unit) <= 2 * (n * factor) + unit && 2 * (n * factor) <= 2 * (v * unit) + unit
        }),
{
    assert(significant(n) == n) by {
        assert(spacing(n) == 1);
        assert(n as nat / 1 == n && n as nat % 1 == 0);
    }
    let m = (n * factor) as nat;
    let q = m / unit;
    let r = m % unit;
    vstd::arithmetic::div_mod::lemma_fundamental_div_mod(m as int, unit as int);
    vstd::arithmetic::div_mod::lemma_mod_bound(m as int, unit as int);
    assert((q + 1) * unit == q * unit + unit) by (nonlinear_arith);
    assert(unit * q == q * unit) by (nonlinear_arith);
}

/// An amount of data reads in bytes below 1024, in units of 1024 bytes below
/// 1024 of those, and so on up to 1024 to the third; in units it has two
/// decimals and is off by at most half of the last of them. `hundredths` is
/// the number that stands there, in hundredths of a unit.
pub proof fn law_size_reads(n: u64) -> (hundredths: int)
    requires
        n < 0x20_0000_0000_0000,
    ensures
        n < 1024 ==> size_text(n) == text::dec(n as nat) + " B"@,
        ({
            let shown = text::dec((hundredths / 100) as nat) + "."@ + two_digits(hundredths % 100);
            &&& 1024 <= n < 1024 * 1024 ==> size_text(n) == shown + " KB"@ && -1024 <= 2 * (
            hundredths * 1024 - 100 * n) <= 1024
            &&& 1024 * 1024 <= n < 1024 * 1024 * 1024 ==> size_text(n) == shown + " MB"@
                && -1_048_576 <= 2 * (hundredths * 1_048_576 - 100 * n) <= 1_048_576
            &&& 1024 * 1024 * 1024 <= n ==> size_text(n) == shown + " GB"@ && -1_073_741_824 <= 2 * (
            hundredths * 1_073_741_824 - 100 * n) <= 1_073_741_824
        }),
{
    let unit: nat = if n < 1_048_576 {
        1024
    } else if n < 1_073_741_824 {
        1_048_576
    } else {
        1_073_741_824
    };
    let v = nearest(significant(n) * 100, unit);
    lemma_rounded(n, 100, unit);
    lemma_two_digits(v % 100);
    v as int
}

/// An amount of data in the compact form: in bytes below 1024, in units of
/// 1024 bytes below 1024 of those, in units of those from there on, with one
/// decimal. `tenths` is the number that stands there, in tenths of a unit.
pub proof fn law_compact_size_reads(n: u64) -> (tenths: int)
    requires
        n < 0x20_0000_0000_0000,
    ensures
        n < 1024 ==> bytes_text(n) == text::dec(n as nat) + "B"@,
        ({
            let shown = text::dec((tenths / 10) as nat) + "."@ + text::dec((tenths % 10) as nat);
            &&& 1024 <= n < 1024 * 1024 ==> bytes_text(n) == shown + "KB"@ && -1024 <= 2 * (tenths
                * 1024 - 10 * n) <= 1024
            &&& 1024 * 1024 <= n ==> bytes_text(n) == shown + "MB"@ && -1_048_576 <= 2 * (tenths
                * 1_048_576 - 10 * n) <= 1_048_576
        }),
{
    let unit: nat = if n < 1_048_576 { 1024 } else { 1_048_576 };
    let v = nearest(significant(n) * 10, unit);
    lemma_rounded(n, 10, unit);
    v as int
}

/// A number below a thousand reads as it is, and a thousand times a number and
/// a rest as the number, a comma and the three digits of the rest.
pub proof fn law_commas(n: nat, rest: nat)
    requires
        rest < 1000,
    ensures
        with_commas(rest) == text::dec(rest),
        n > 0 ==> with_commas(1000 * n + rest) == with_commas(n) + ","@ + seq![
            (48 + rest / 100) as char,
            (48 + rest / 10 % 10) as char,
            (48 + rest % 10) as char,
        ],
{
    let digits = seq![
        (48 + rest / 100) as char,
        (48 + rest / 10 % 10) as char,
        (48 + rest % 10) as char,
    ];
    assert((1000 * n + rest) / 1000 == n);
    assert((1000 * n + rest) % 1000 == rest);
    assert(text::zero_pad(text::dec(rest), 3) =~= digits) by {
        text::law_decimal(rest / 10, rest % 10);
        assert(10 * (rest / 10) + rest % 10 == rest);
        text::law_decimal(rest / 100, rest / 10 % 10);
        assert(10 * (rest / 100) + rest / 10 % 10 == rest / 10);
        text::law_decimal(0, rest / 100);
        if rest >= 100 {
            assert(text::dec(rest) =~= digits);
        } else if rest >= 10 {
            assert(rest / 100 == 0);
            assert(text::dec(rest) =~= digits.skip(1));
        } else {
            assert(rest / 10 == 0);
            assert(text::dec(rest) =~= digits.skip(2));
        }
    }
}

/// A session of some hours, minutes and seconds reads as these, with two
/// digits at least, and colons between them.
pub proof fn law_uptime_reads(hours: nat, minutes: nat, seconds: nat)
    requires
        minutes < 60,
        seconds < 60,
        hours * 3600 + minutes * 60 + seconds <= u64::MAX,
    ensures
        ({
            let secs = (hours * 3600 + minutes * 60 + seconds) as u64;
            &&& hours < 100 ==> uptime_text(secs) == two_digits(hours as int) + ":"@ + two_digits(
                minutes as int,
            ) + ":"@ + two_digits(seconds as int)
            &&& hours >= 100 ==> uptime_text(secs) == text::dec(hours) + ":"@ + two_digits(
                minutes as int,
            ) + ":"@ + two_digits(seconds as int)
        }),
{
    let secs = (hours * 3600 + minutes * 60 + seconds) as u64;
    assert(secs / 3600 == hours);
    assert(secs % 3600 == minutes * 60 + seconds);
    assert((secs % 3600) / 60 == minutes);
    assert(secs % 60 == seconds);
    lemma_two_digits(minutes);
    lemma_two_digits(seconds);
    if hours < 100 {
        lemma_two_digits(hours);
    } else {
        lemma_wide(hours);
    }
}

proof fn lemma_wide(n: nat)
    requires
        n >= 10,
    ensures
        text::dec(n).len() >= 2,
{
    text::law_decimal(n / 10, n % 10);
    assert(10 * (n / 10) + n % 10 == n);
    lemma_written(n / 10);
}

proof fn lemma_written(n: nat)
    ensures
        text::dec(n).len() >= 1,
{
}

/// A time of some hours, minutes and seconds reads as the two highest of these
/// that are not nought.
pub proof fn law_duration_reads(hours: nat, minutes: nat, seconds: nat)
    requires
        minutes < 60,
        seconds < 60,
        hours * 3600 + minutes * 60 + seconds <= u64::MAX,
    ensures
        ({
            let shown = duration_text((hours * 3600 + minutes * 60 + seconds) as u64);
            &&& hours == 0 && minutes == 0 ==> shown == text::dec(seconds) + "s"@
            &&& hours == 0 && minutes > 0 ==> shown == text::dec(minutes) + "m"@ + text::dec(seconds)
                + "s"@
            &&& hours > 0 ==> shown == text::dec(hours) + "h"@ + text::dec(minutes) + "m"@
        }),
{
    let secs = (hours * 3600 + minutes * 60 + seconds) as u64;
    assert(secs / 3600 == hours);
    assert((secs % 3600) / 60 == minutes);
    assert(secs % 60 == seconds);
    if hours == 0 {
        assert(secs / 60 == minutes);
    }
}

/// A device that answers reads as online for ten seconds after it was seen and
/// as seen seconds or minutes ago after that; one that was missed reads by the
/// wall clock, up to days.
pub proof fn law_last_seen_reads(dev: InfoView, now: u64, now_unix: u64, ago: nat)
    requires
        dev.miss_count == 0 ==> now >= dev.last_seen && ago * 1_000_000_000 <= now - dev.last_seen < (
        ago + 1) * 1_000_000_000,
        dev.miss_count > 0 ==> now_unix == dev.last_seen_unix + ago,
    ensures
        ({
            let shown = seen_text(dev, now, now_unix);
            &&& dev.miss_count == 0 && ago < 10 ==> shown == "Online"@
            &&& dev.miss_count == 0 && 10 <= ago < 60 ==> shown == text::dec(ago) + "s ago"@
            &&& dev.miss_count == 0 && 60 <= ago ==> shown == text::dec(ago / 60) + "m ago"@
            &&& dev.miss_count > 0 && ago < 60 ==> shown == text::dec(ago) + "s ago"@
            &&& dev.miss_count > 0 && 60 <= ago < 3600 ==> shown == text::dec(ago / 60) + "m ago"@
            &&& dev.miss_count > 0 && 3600 <= ago < 86400 ==> shown == text::dec(ago / 3600)
                + "h ago"@
            &&& dev.miss_count > 0 && 86400 <= ago ==> shown == text::dec(ago / 86400) + "d ago"@
        }),
{
    if dev.miss_count == 0 {
        assert(since(now, dev.last_seen) / 1_000_000_000 == ago);
    }
}

/// The services that ports are known by; any other port reads as its number.
pub proof fn law_port_names(port: u16)
    ensures
        port_name(21, 0) == "FTP"@,
        port_name(22, 0) == "SSH"@,
        port_name(25, 0) == "SMTP"@,
        port_name(53, 0) == "DNS"@,
        port_name(80, 0) == "HTTP"@,
        port_name(110, 0) == "POP3"@,
        port_name(143, 0) == "IMAP"@,
        port_name(443, 0) == "HTTPS"@,
        port_name(1900, 0) == "UPnP"@,
        port_name(3389, 0) == "RDP"@,
        port_name(5353, 0) == "mDNS"@,
        port_name(8009, 0) == "Cast"@,
        port_name(8080, 0) == "HTTP-Alt"@,
        port != 21 && port != 22 && port != 25 && port != 53 && port != 80 && port != 110 && port
            != 143 && port != 443 && port != 1900 && port != 3389 && port != 5353 && port != 8009
            && port != 8080 ==> port_name(port, 0) == text::dec(port as nat),
{
    let t = PORT_NAMES@;
    assert(t.len() == 13);
    assert(t[0] == (21u16, "FTP") && t[1] == (22u16, "SSH") && t[2] == (25u16, "SMTP") && t[3] == (
        53u16,
        "DNS",
    ) && t[4] == (80u16, "HTTP") && t[5] == (110u16, "POP3") && t[6] == (143u16, "IMAP"));
    assert(t[7] == (443u16, "HTTPS") && t[8] == (1900u16, "UPnP") && t[9] == (3389u16, "RDP") && t[10]
        == (5353u16, "mDNS") && t[11] == (8009u16, "Cast") && t[12] == (8080u16, "HTTP-Alt"));
    reveal_with_fuel(port_name, 15);
}

/// An address and a port read with a colon between them; where addresses are
/// shortened, what all addresses of this network begin with is left out.
pub proof fn law_endpoint_reads(ip: IpAddr, port: u16, prefix: Seq<char>, rest: Seq<char>)
    ensures
        endpoint(ip, Some(port), false, prefix) == net::ip_text(ip) + ":"@ + text::dec(port as nat),
        endpoint(ip, None, false, prefix) == net::ip_text(ip),
        endpoint_labeled(ip, Some(port), false, prefix) == net::ip_text(ip) + ":"@ + port_name(
            port,
            0,
        ),
        endpoint_labeled(ip, None, false, prefix) == net::ip_text(ip),
        prefix.len() > 0 && net::ip_text(ip) == prefix + rest ==> endpoint(ip, Some(port), true, prefix)
            == rest + ":"@ + text::dec(port as nat) && endpoint_labeled(
            ip,
            Some(port),
            true,
            prefix,
        ) == rest + ":"@ + port_name(port, 0),
        ip is V4 && (prefix.len() == 0 || !text::starts(net::ip_text(ip), prefix)) ==> endpoint(
            ip,
            Some(port),
            true,
            prefix,
        ) == net::ip_text(ip) + ":"@ + text::dec(port as nat),
{
    if prefix.len() > 0 && net::ip_text(ip) == prefix + rest {
        let full = net::ip_text(ip);
        assert(full.subrange(0, prefix.len() as int) =~= prefix);
        assert(full.skip(prefix.len() as int) =~= rest);
    }
}

} // verus!
