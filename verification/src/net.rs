//! Internet addresses: their classes and their textual form.

use vstd::prelude::*;
use vstd::string::*;

use crate::table::Key;
use crate::text;
use crate::text::{chars_of, dec_text, hex_text, push_hex2, small_number, split_chars};

verus! {

/// An internet address, as the number that its bytes form in network order.
#[derive(Clone, Copy, Debug, PartialEq, Eq, Structural, Hash, PartialOrd, Ord)]
pub enum IpAddr {
    V4(u32),
    V6(u128),
}

impl View for IpAddr {
    type V = IpAddr;

    open spec fn view(&self) -> IpAddr {
        *self
    }
}

impl Key for IpAddr {
    fn same_key(&self, other: &Self) -> (r: bool) {
        *self == *other
    }
}

impl Key for (IpAddr, IpAddr) {
    fn same_key(&self, other: &Self) -> (r: bool) {
        self.0 == other.0 && self.1 == other.1
    }
}

/// The byte of an IPv4 address at a position.
pub open spec fn octet(n: u32, i: int) -> u8 {
    if i == 0 {
        (n / 16777216) as u8
    } else if i == 1 {
        ((n / 65536) % 256) as u8
    } else if i == 2 {
        ((n / 256) % 256) as u8
    } else {
        (n % 256) as u8
    }
}

/// The four bytes of an IPv4 address.
pub fn octets(n: u32) -> (r: [u8; 4])
    ensures
        r@ == seq![octet(n, 0), octet(n, 1), octet(n, 2), octet(n, 3)],
{
    let r = [
        (n / 16777216) as u8,
        ((n / 65536) % 256) as u8,
        ((n / 256) % 256) as u8,
        (n % 256) as u8,
    ];
    assert(r@ =~= seq![octet(n, 0), octet(n, 1), octet(n, 2), octet(n, 3)]);
    r
}

/// The number that four bytes form.
pub open spec fn quad(a: u8, b: u8, c: u8, d: u8) -> u32 {
    (a * 16777216 + b * 65536 + c * 256 + d) as u32
}

/// The IPv4 address of four bytes.
pub fn v4(a: u8, b: u8, c: u8, d: u8) -> (r: IpAddr)
    ensures
        r == IpAddr::V4(quad(a, b, c, d)),
{
    IpAddr::V4((a as u32) * 16777216 + (b as u32) * 65536 + (c as u32) * 256 + (d as u32))
}

/// An IPv4 address and its four bytes determine each other.
pub proof fn law_octets_of_quad(a: u8, b: u8, c: u8, d: u8)
    ensures
        octet(quad(a, b, c, d), 0) == a,
        octet(quad(a, b, c, d), 1) == b,
        octet(quad(a, b, c, d), 2) == c,
        octet(quad(a, b, c, d), 3) == d,
{
    let n = quad(a, b, c, d);
    let low = b * 65536 + c * 256 + d;
    assert(n == a * 16777216 + low && 0 <= low < 16777216);
    assert(n / 16777216 == a);
    assert(n / 65536 == a * 256 + b);
    assert(n / 256 == a * 65536 + b * 256 + c);
}

/// An IPv4 address is the number that its four bytes form.
pub proof fn law_quad_of_octets(n: u32)
    ensures
        quad(octet(n, 0), octet(n, 1), octet(n, 2), octet(n, 3)) == n,
{
}

/// The last `k` segments of sixteen bits of a number.
pub open spec fn segments_of(n: nat, k: nat) -> Seq<u16>
    decreases k,
{
    if k == 0 {
        Seq::empty()
    } else {
        segments_of(n / 65536, (k - 1) as nat).push((n % 65536) as u16)
    }
}

/// The eight segments of an IPv6 address.
pub open spec fn segments(n: u128) -> Seq<u16> {
    segments_of(n as nat, 8)
}

proof fn lemma_segments_len(n: nat, k: nat)
    ensures
        segments_of(n, k).len() == k,
    decreases k,
{
    if k > 0 {
        lemma_segments_len(n / 65536, (k - 1) as nat);
    }
}

fn low_segments(n: u128, k: u8) -> (r: Vec<u16>)
    ensures
        r@ == segments_of(n as nat, k as nat),
    decreases k,
{
    if k == 0 {
        Vec::new()
    } else {
        let mut r = low_segments(n / 65536, k - 1);
        r.push((n % 65536) as u16);
        r
    }
}

/// The eight segments of an IPv6 address.
pub fn segment_list(n: u128) -> (r: Vec<u16>)
    ensures
        r@ == segments(n),
        r@.len() == 8,
{
    proof {
        lemma_segments_len(n as nat, 8);
    }
    low_segments(n, 8)
}

/// Whether an address is sent to a group of hosts.
pub open spec fn multicast(ip: IpAddr) -> bool {
    match ip {
        IpAddr::V4(n) => 224 <= octet(n, 0) && octet(n, 0) <= 239,
        IpAddr::V6(n) => n / 0x0100_0000_0000_0000_0000_0000_0000_0000 == 255,
    }
}

/// Whether an address is sent to a group of hosts.
pub fn is_multicast(ip: &IpAddr) -> (r: bool)
    ensures
        r == multicast(*ip),
{
    match ip {
        IpAddr::V4(n) => {
            let o: u8 = (*n / 16777216) as u8;
            224 <= o && o <= 239
        },
        IpAddr::V6(n) => *n / 0x0100_0000_0000_0000_0000_0000_0000_0000 == 255,
    }
}

/// Addresses of networks that are not routed on the internet: 10/8,
/// 172.16/12 and 192.168/16.
pub open spec fn private_ip(ip: IpAddr) -> bool {
    match ip {
        IpAddr::V4(n) => {
            ||| octet(n, 0) == 192 && octet(n, 1) == 168
            ||| octet(n, 0) == 10
            ||| octet(n, 0) == 172 && 16 <= octet(n, 1) && octet(n, 1) <= 31
        },
        IpAddr::V6(_) => false,
    }
}

/// Whether an address is one of a private network.
pub fn is_private_ip(ip: &IpAddr) -> (r: bool)
    ensures
        r == private_ip(*ip),
{
    match ip {
        IpAddr::V4(n) => {
            let o = octets(*n);
            o[0] == 192 && o[1] == 168 || o[0] == 10 || o[0] == 172 && 16 <= o[1] && o[1] <= 31
        },
        IpAddr::V6(_) => false,
    }
}

/// Addresses of this network: the private ones and 169.254/16.
pub open spec fn local_ip(ip: IpAddr) -> bool {
    match ip {
        IpAddr::V4(n) => private_ip(ip) || octet(n, 0) == 169 && octet(n, 1) == 254,
        IpAddr::V6(_) => false,
    }
}

/// Whether an address is one of this network.
pub fn is_local_ip(ip: &IpAddr) -> (r: bool)
    ensures
        r == local_ip(*ip),
{
    match ip {
        IpAddr::V4(n) => {
            let o = octets(*n);
            is_private_ip(ip) || o[0] == 169 && o[1] == 254
        },
        IpAddr::V6(_) => false,
    }
}

/// A private address is an address of this network.
pub proof fn law_private_is_local(ip: IpAddr)
    ensures
        private_ip(ip) ==> local_ip(ip),
{
}

/// The private addresses are those from 10.0.0.0 to 10.255.255.255, from
/// 172.16.0.0 to 172.31.255.255 and from 192.168.0.0 to 192.168.255.255.
pub proof fn law_private_ranges(n: u32)
    ensures
        private_ip(IpAddr::V4(n)) <==> 0x0A00_0000 <= n <= 0x0AFF_FFFF || 0xAC10_0000 <= n
            <= 0xAC1F_FFFF || 0xC0A8_0000 <= n <= 0xC0A8_FFFF,
{
    law_quad_of_octets(n);
    law_octets_of_quad(octet(n, 0), octet(n, 1), octet(n, 2), octet(n, 3));
}

/// The local addresses are the private ones and those from 169.254.0.0 to
/// 169.254.255.255; none of the longer addresses is private, local or one that
/// is never alerted as outside.
pub proof fn law_local_ranges(n: u32, long: u128)
    ensures
        local_ip(IpAddr::V4(n)) <==> 0x0A00_0000 <= n <= 0x0AFF_FFFF || 0xAC10_0000 <= n
            <= 0xAC1F_FFFF || 0xC0A8_0000 <= n <= 0xC0A8_FFFF || 0xA9FE_0000 <= n <= 0xA9FE_FFFF,
        !private_ip(IpAddr::V6(long)),
        !local_ip(IpAddr::V6(long)),
        !local_or_multicast(IpAddr::V6(long)),
        !unassigned(IpAddr::V6(long)),
{
    law_private_ranges(n);
    law_quad_of_octets(n);
}

/// Addresses that are never alerted as outside are the private ones, those
/// from 127.0.0.0 to 127.255.255.255, those from 224.0.0.0 to 239.255.255.255
/// and 255.255.255.255.
pub proof fn law_at_home_ranges(n: u32)
    ensures
        local_or_multicast(IpAddr::V4(n)) <==> 0x0A00_0000 <= n <= 0x0AFF_FFFF || 0xAC10_0000 <= n
            <= 0xAC1F_FFFF || 0xC0A8_0000 <= n <= 0xC0A8_FFFF || 0x7F00_0000 <= n <= 0x7FFF_FFFF
            || 0xE000_0000 <= n <= 0xEFFF_FFFF || n == 0xFFFF_FFFF,
{
    law_private_ranges(n);
    law_quad_of_octets(n);
}

/// Addresses whose packets are not counted are those from 224.0.0.0 to
/// 239.255.255.255, those whose last byte is 0 or 255, and the longer ones
/// whose first byte is 255.
pub proof fn law_noise_ranges(n: u32, long: u128)
    ensures
        noise_address(IpAddr::V4(n)) <==> 0xE000_0000 <= n <= 0xEFFF_FFFF || n % 256 == 0 || n % 256
            == 255,
        multicast(IpAddr::V4(n)) <==> 0xE000_0000 <= n <= 0xEFFF_FFFF,
        multicast(IpAddr::V6(long)) <==> 0xFF00_0000_0000_0000_0000_0000_0000_0000 <= long,
        noise_address(IpAddr::V6(long)) <==> 0xFF00_0000_0000_0000_0000_0000_0000_0000 <= long,
{
    law_quad_of_octets(n);
}

/// Unassigned addresses are those below 1.0.0.0, those from 100.64.0.0 to
/// 100.127.255.255 and those from 240.0.0.0 on.
pub proof fn law_unassigned_ranges(n: u32)
    ensures
        unassigned(IpAddr::V4(n)) <==> n <= 0x00FF_FFFF || 0x6440_0000 <= n <= 0x647F_FFFF
            || 0xF000_0000 <= n,
{
    law_quad_of_octets(n);
}

/// An address is written as its four bytes in decimal, from the first to the
/// last, with full stops between them.
pub proof fn law_address_written(a: u8, b: u8, c: u8, d: u8)
    ensures
        ip_text(IpAddr::V4((a * 0x0100_0000 + b * 0x0001_0000 + c * 0x0100 + d) as u32)) == text::dec(
            a as nat,
        ) + "."@ + text::dec(b as nat) + "."@ + text::dec(c as nat) + "."@ + text::dec(d as nat),
{
    law_octets_of_quad(a, b, c, d);
}

/// Addresses that do not leave this network: private, loopback, multicast and
/// broadcast ones.
pub open spec fn local_or_multicast(ip: IpAddr) -> bool {
    match ip {
        IpAddr::V4(n) => {
            ||| private_ip(ip)
            ||| octet(n, 0) == 127
            ||| 224 <= octet(n, 0) && octet(n, 0) <= 239
            ||| n == 0xFFFF_FFFF
        },
        IpAddr::V6(_) => false,
    }
}

/// Whether an address does not leave this network.
pub fn is_local_or_multicast(ip: &IpAddr) -> (r: bool)
    ensures
        r == local_or_multicast(*ip),
{
    match ip {
        IpAddr::V4(n) => {
            let o = octets(*n);
            is_private_ip(ip) || o[0] == 127 || 224 <= o[0] && o[0] <= 239 || *n == 0xFFFF_FFFF
        },
        IpAddr::V6(_) => false,
    }
}

/// Addresses that no host of the Internet has: those of no network, of a
/// carrier's own network, and the reserved ones.
pub open spec fn unassigned(ip: IpAddr) -> bool {
    match ip {
        IpAddr::V4(n) => {
            ||| octet(n, 0) == 0
            ||| octet(n, 0) == 100 && 64 <= octet(n, 1) && octet(n, 1) <= 127
            ||| 240 <= octet(n, 0)
        },
        IpAddr::V6(_) => false,
    }
}

/// Whether no host of the Internet has an address.
pub fn is_unassigned(ip: &IpAddr) -> (r: bool)
    ensures
        r == unassigned(*ip),
{
    match ip {
        IpAddr::V4(n) => {
            let o = octets(*n);
            o[0] == 0 || o[0] == 100 && 64 <= o[1] && o[1] <= 127 || 240 <= o[0]
        },
        IpAddr::V6(_) => false,
    }
}

/// Addresses that no single host has: multicast, broadcast and network
/// addresses.
pub open spec fn noise_address(ip: IpAddr) -> bool {
    match ip {
        IpAddr::V4(n) => {
            ||| n == 0xFFFF_FFFF
            ||| multicast(ip)
            ||| octet(n, 3) == 255
            ||| octet(n, 3) == 0
        },
        IpAddr::V6(_) => multicast(ip),
    }
}

/// Whether an address is one that no single host has.
pub fn is_noise_address(ip: &IpAddr) -> (r: bool)
    ensures
        r == noise_address(*ip),
{
    match ip {
        IpAddr::V4(n) => {
            let o = octets(*n);
            *n == 0xFFFF_FFFF || is_multicast(ip) || o[3] == 255 || o[3] == 0
        },
        IpAddr::V6(_) => is_multicast(ip),
    }
}

/// An IPv4 address in dotted decimal.
pub open spec fn v4_text(n: u32) -> Seq<char> {
    text::dec(octet(n, 0) as nat) + "."@ + text::dec(octet(n, 1) as nat) + "."@ + text::dec(octet(n, 2) as nat)
        + "."@ + text::dec(octet(n, 3) as nat)
}

/// An IPv4 address in dotted decimal.
pub fn v4_string(n: u32) -> (r: String)
    ensures
        r@ == v4_text(n),
{
    let o = octets(n);
    let mut r = dec_text(o[0] as u64);
    r.append(".");
    r.append(dec_text(o[1] as u64).as_str());
    r.append(".");
    r.append(dec_text(o[2] as u64).as_str());
    r.append(".");
    r.append(dec_text(o[3] as u64).as_str());
    r
}

/// The number of zero segments in a row from position `i` on.
pub open spec fn zero_run(s: Seq<u16>, i: int) -> nat
    decreases s.len() - i,
{
    if i < 0 || i >= s.len() || s[i] != 0 {
        0
    } else {
        1 + zero_run(s, i + 1)
    }
}

/// The place and length of the first longest row of zero segments before
/// position `i`.
pub open spec fn longest_run(s: Seq<u16>, i: nat) -> (int, nat)
    decreases i,
{
    if i == 0 {
        (0, 0)
    } else {
        let b = longest_run(s, (i - 1) as nat);
        if zero_run(s, i - 1) > b.1 {
            (i - 1, zero_run(s, i - 1))
        } else {
            b
        }
    }
}

/// Segments in hexadecimal with colons between them.
pub open spec fn hex_list(s: Seq<u16>) -> Seq<char>
    decreases s.len(),
{
    if s.len() == 0 {
        Seq::empty()
    } else if s.len() == 1 {
        text::hex(s[0] as nat)
    } else {
        hex_list(s.drop_last()) + ":"@ + text::hex(s.last() as nat)
    }
}

/// An IPv6 address in text: a mapped IPv4 address in dotted decimal, otherwise
/// hexadecimal segments with the first longest row of two or more zero
/// segments left out.
pub open spec fn v6_text(n: u128) -> Seq<char> {
    let s = segments(n);
    let b = longest_run(s, 8);
    if n / 0x1_0000_0000 == 0xFFFF {
        "::ffff:"@ + v4_text((n % 0x1_0000_0000) as u32)
    } else if b.1 > 1 {
        hex_list(s.subrange(0, b.0)) + "::"@ + hex_list(s.subrange(b.0 + b.1, 8))
    } else {
        hex_list(s)
    }
}

proof fn lemma_zero_run(s: Seq<u16>, i: int)
    requires
        0 <= i <= s.len(),
    ensures
        i + zero_run(s, i) <= s.len(),
    decreases s.len() - i,
{
    if i < s.len() && s[i] == 0 {
        lemma_zero_run(s, i + 1);
    }
}

fn run_from(s: &Vec<u16>, i: usize) -> (r: usize)
    requires
        i <= s@.len(),
    ensures
        r == zero_run(s@, i as int),
        i + r <= s@.len(),
    decreases s@.len() - i,
{
    proof {
        lemma_zero_run(s@, i as int);
    }
    if i < s.len() && s[i] == 0 {
        1 + run_from(s, i + 1)
    } else {
        0
    }
}

fn hex_part(s: &Vec<u16>, from: usize, to: usize) -> (r: String)
    requires
        from <= to <= s@.len(),
    ensures
        r@ == hex_list(s@.subrange(from as int, to as int)),
{
    let mut r = String::new();
    assert(s@.subrange(from as int, from as int) =~= Seq::<u16>::empty());
    for i in from..to
        invariant
            from <= to <= s@.len(),
            r@ == hex_list(s@.subrange(from as int, i as int)),
    {
        let ghost t = s@.subrange(from as int, i + 1);
        assert(t.drop_last() =~= s@.subrange(from as int, i as int));
        assert(t.last() == s@[i as int]);
        if i > from {
            r.append(":");
            r.append(hex_text(s[i] as u64).as_str());
        } else {
            r = hex_text(s[i] as u64);
        }
    }
    r
}

/// An IPv6 address in text.
pub fn v6_string(n: u128) -> (r: String)
    ensures
        r@ == v6_text(n),
{
    if n / 0x1_0000_0000 == 0xFFFF {
        let mut r = "::ffff:".to_owned();
        r.append(v4_string((n % 0x1_0000_0000) as u32).as_str());
        return r;
    }
    let s = segment_list(n);
    let mut at: usize = 0;
    let mut len: usize = 0;
    for i in 0..8usize
        invariant
            s@.len() == 8,
            (at as int, len as nat) == longest_run(s@, i as nat),
            at + len <= 8,
    {
        let z: usize = run_from(&s, i);
        if z > len {
            at = i;
            len = z;
        }
    }
    if len > 1 {
        let mut r = hex_part(&s, 0, at);
        r.append("::");
        r.append(hex_part(&s, at + len, 8).as_str());
        r
    } else {
        assert(s@.subrange(0, 8) =~= s@);
        hex_part(&s, 0, 8)
    }
}

/// An address in text.
pub open spec fn ip_text(ip: IpAddr) -> Seq<char> {
    match ip {
        IpAddr::V4(n) => v4_text(n),
        IpAddr::V6(n) => v6_text(n),
    }
}

/// An address in text.
pub fn ip_string(ip: &IpAddr) -> (r: String)
    ensures
        r@ == ip_text(*ip),
{
    match ip {
        IpAddr::V4(n) => v4_string(*n),
        IpAddr::V6(n) => v6_string(*n),
    }
}

/// A hardware address as hexadecimal pairs, upper case, with `sep` between them.
pub open spec fn mac_text(m: Seq<u8>, sep: Seq<char>) -> Seq<char> {
    text::hex2(m[0]) + sep + text::hex2(m[1]) + sep + text::hex2(m[2]) + sep + text::hex2(m[3]) + sep + text::hex2(m[4]) + sep
        + text::hex2(m[5])
}

/// A hardware address as hexadecimal pairs, upper case, with `sep` between them.
pub fn mac_string(m: &[u8], sep: &str) -> (r: String)
    requires
        m@.len() == 6,
    ensures
        r@ == mac_text(m@, sep@),
{
    let mut r = String::new();
    push_hex2(&mut r, m[0]);
    assert(r@ =~= text::hex2(m@[0]));
    r.append(sep);
    push_hex2(&mut r, m[1]);
    r.append(sep);
    push_hex2(&mut r, m[2]);
    r.append(sep);
    push_hex2(&mut r, m[3]);
    r.append(sep);
    push_hex2(&mut r, m[4]);
    r.append(sep);
    push_hex2(&mut r, m[5]);
    r
}

// ---------------------------------------------------------------------------
// Reading addresses
// ---------------------------------------------------------------------------

/// A number of an address in text: at most 255, in at most three digits, and
/// without zeros before it.
pub open spec fn octet_read(s: Seq<char>) -> Option<nat> {
    if s.len() > 3 || s.len() > 1 && s[0] == '0' {
        None
    } else {
        text::number_up_to(s, 255)
    }
}

/// The IPv4 address that a text is, in dotted decimal.
pub open spec fn v4_read(s: Seq<char>) -> Option<u32> {
    let p = text::split(s, '.');
    if p.len() != 4 {
        None
    } else {
        match (octet_read(p[0]), octet_read(p[1]), octet_read(p[2]), octet_read(p[3])) {
            (Some(a), Some(b), Some(c), Some(d)) => Some(
                quad(a as u8, b as u8, c as u8, d as u8),
            ),
            _ => None,
        }
    }
}

fn read_octet(s: &str) -> (r: Option<u8>)
    ensures
        match r {
            Some(n) => octet_read(s@) == Some(n as nat),
            None => octet_read(s@) is None,
        },
{
    let c = chars_of(s);
    if c.len() > 3 || c.len() > 1 && c[0] == '0' {
        return None;
    }
    small_number(c.as_slice())
}

/// The IPv4 address that a text is, in dotted decimal.
pub fn parse_v4(s: &str) -> (r: Option<IpAddr>)
    ensures
        match r {
            Some(ip) => v4_read(s@) is Some && ip == IpAddr::V4(v4_read(s@)->0),
            None => v4_read(s@) is None,
        },
{
    let c = chars_of(s);
    let p = split_chars(c.as_slice(), '.');
    assert(text::texts(p@).len() == p@.len());
    if p.len() != 4 {
        return None;
    }
    proof {
        assert(text::texts(p@)[0] == p@[0]@);
        assert(text::texts(p@)[1] == p@[1]@);
        assert(text::texts(p@)[2] == p@[2]@);
        assert(text::texts(p@)[3] == p@[3]@);
    }
    match (
        read_octet(p[0].as_str()),
        read_octet(p[1].as_str()),
        read_octet(p[2].as_str()),
        read_octet(p[3].as_str()),
    ) {
        (Some(a), Some(b), Some(c), Some(d)) => Some(v4(a, b, c, d)),
        _ => None,
    }
}

proof fn lemma_octet_read(n: u8)
    ensures
        octet_read(text::dec(n as nat)) == Some(n as nat),
        forall|i: int| 0 <= i < text::dec(n as nat).len() ==> text::dec(n as nat)[i] != '.',
{
    text::law_number_read(n as nat);
    assert forall|i: int| 0 <= i < text::dec(n as nat).len() implies text::dec(n as nat)[i] != '.' by {
        assert(text::is_digit(text::dec(n as nat)[i]));
    }
    reveal_with_fuel(text::dec, 3);
    if n >= 100 {
        assert(text::dec(n as nat) =~= seq![
            text::digit((n / 100) as nat),
            text::digit(((n / 10) % 10) as nat),
            text::digit((n % 10) as nat),
        ]);
    } else if n >= 10 {
        assert(text::dec(n as nat) =~= seq![text::digit((n / 10) as nat), text::digit((n % 10) as nat)]);
    } else {
        assert(text::dec(n as nat) =~= seq![text::digit(n as nat)]);
    }
}

/// An IPv4 address reads back from its textual form.
pub proof fn law_address_read(n: u32)
    ensures
        v4_read(v4_text(n)) == Some(n),
{
    let (a, b, c, d) = (octet(n, 0), octet(n, 1), octet(n, 2), octet(n, 3));
    lemma_octet_read(a);
    lemma_octet_read(b);
    lemma_octet_read(c);
    lemma_octet_read(d);
    law_quad_of_octets(n);
    reveal_strlit(".");
    let dot = seq!['.'];
    assert("."@ =~= dot);
    let t1 = text::dec(c as nat) + dot + text::dec(d as nat);
    let t2 = text::dec(b as nat) + dot + t1;
    let t3 = text::dec(a as nat) + dot + t2;
    assert(v4_text(n) =~= t3);
    text::lemma_split_single(text::dec(d as nat), '.');
    text::lemma_split_first(text::dec(c as nat), text::dec(d as nat), '.');
    text::lemma_split_first(text::dec(b as nat), t1, '.');
    text::lemma_split_first(text::dec(a as nat), t2, '.');
    let p = text::split(t3, '.');
    assert(p[0] == text::dec(a as nat));
    assert(p[1] == text::dec(b as nat));
    assert(p[2] == text::dec(c as nat));
    assert(p[3] == text::dec(d as nat));
}

// ---------------------------------------------------------------------------
// The length of addresses in text
// ---------------------------------------------------------------------------

proof fn lemma_hex_short(n: u16)
    ensures
        text::hex(n as nat).len() <= 4,
{
    reveal_with_fuel(text::hex, 5);
}

proof fn lemma_dec_short(n: u8)
    ensures
        text::dec(n as nat).len() <= 3,
{
    reveal_with_fuel(text::dec, 4);
}

proof fn lemma_hex_list_short(s: Seq<u16>)
    ensures
        hex_list(s).len() <= 5 * s.len(),
    decreases s.len(),
{
    reveal_strlit(":");
    if s.len() == 1 {
        lemma_hex_short(s[0]);
    } else if s.len() > 1 {
        lemma_hex_list_short(s.drop_last());
        lemma_hex_short(s.last());
    }
}

proof fn lemma_longest_run(s: Seq<u16>, i: nat)
    requires
        i <= s.len(),
    ensures
        0 <= longest_run(s, i).0,
        longest_run(s, i).0 + longest_run(s, i).1 <= s.len(),
    decreases i,
{
    if i > 0 {
        lemma_longest_run(s, (i - 1) as nat);
        lemma_zero_run(s, i - 1);
    }
}

/// No address is longer than sixty characters in text.
pub proof fn law_address_short(ip: IpAddr)
    ensures
        ip_text(ip).len() <= 60,
{
    reveal_strlit(".");
    reveal_strlit("::");
    reveal_strlit("::ffff:");
    match ip {
        IpAddr::V4(n) => {
            lemma_v4_short(n);
        },
        IpAddr::V6(n) => {
            let s = segments(n);
            lemma_segments_len(n as nat, 8);
            lemma_longest_run(s, 8);
            let b = longest_run(s, 8);
            lemma_v4_short((n % 0x1_0000_0000) as u32);
            lemma_hex_list_short(s);
            lemma_hex_list_short(s.subrange(0, b.0));
            lemma_hex_list_short(s.subrange(b.0 + b.1, 8));
        },
    }
}

proof fn lemma_v4_short(n: u32)
    ensures
        v4_text(n).len() <= 15,
{
    reveal_strlit(".");
    lemma_dec_short(octet(n, 0));
    lemma_dec_short(octet(n, 1));
    lemma_dec_short(octet(n, 2));
    lemma_dec_short(octet(n, 3));
}

/// The eight parts of a longer address, the highest one first.
pub proof fn law_parts_of_address(a: u16, b: u16, c: u16, d: u16, e: u16, f: u16, g: u16, h: u16)
    ensures
        ({
            let n = ((((((a * 65536 + b) * 65536 + c) * 65536 + d) * 65536 + e) * 65536 + f) * 65536
                + g) * 65536 + h;
            segments(n as u128) == seq![a, b, c, d, e, f, g, h]
        }),
{
    let n1 = a as int;
    let n2 = n1 * 65536 + b;
    let n3 = n2 * 65536 + c;
    let n4 = n3 * 65536 + d;
    let n5 = n4 * 65536 + e;
    let n6 = n5 * 65536 + f;
    let n7 = n6 * 65536 + g;
    let n8 = n7 * 65536 + h;
    assert(0 <= n8 <= u128::MAX);
    assert(n8 / 65536 == n7 && n8 % 65536 == h);
    assert(n7 / 65536 == n6 && n7 % 65536 == g);
    assert(n6 / 65536 == n5 && n6 % 65536 == f);
    assert(n5 / 65536 == n4 && n5 % 65536 == e);
    assert(n4 / 65536 == n3 && n4 % 65536 == d);
    assert(n3 / 65536 == n2 && n3 % 65536 == c);
    assert(n2 / 65536 == n1 && n2 % 65536 == b);
    assert(n1 / 65536 == 0 && n1 % 65536 == a);
    reveal_with_fuel(segments_of, 9);
    assert(segments(n8 as u128) =~= seq![a, b, c, d, e, f, g, h]);
}

/// Parts of an address read in hexadecimal with colons between them.
pub proof fn law_parts_read(s: Seq<u16>)
    ensures
        hex_list(s) == text::join(Seq::new(s.len(), |i: int| text::hex(s[i] as nat)), ":"@),
    decreases s.len(),
{
    let t = Seq::new(s.len(), |i: int| text::hex(s[i] as nat));
    if s.len() > 1 {
        let front = s.drop_last();
        law_parts_read(front);
        assert(t.drop_last() =~= Seq::new(front.len(), |i: int| text::hex(front[i] as nat)));
    }
}

proof fn lemma_run(s: Seq<u16>, i: int)
    requires
        0 <= i <= s.len(),
    ensures
        i + zero_run(s, i) <= s.len(),
        forall|j: int| i <= j < i + zero_run(s, i) ==> #[trigger] s[j] == 0,
        i + zero_run(s, i) < s.len() ==> s[i + zero_run(s, i)] != 0,
    decreases s.len() - i,
{
    if i < s.len() && s[i] == 0 {
        lemma_run(s, i + 1);
    }
}

proof fn lemma_longest(s: Seq<u16>, i: nat)
    requires
        i <= s.len(),
    ensures
        ({
            let b = longest_run(s, i);
            &&& forall|j: int| 0 <= j < i ==> #[trigger] zero_run(s, j) <= b.1
            &&& b.1 > 0 ==> 0 <= b.0 < i && b.1 == zero_run(s, b.0)
            &&& forall|j: int| 0 <= j < b.0 ==> #[trigger] zero_run(s, j) < b.1
        }),
    decreases i,
{
    if i > 0 {
        lemma_longest(s, (i - 1) as nat);
    }
}

/// The parts from `i` to `l` are noughts.
pub open spec fn noughts(s: Seq<u16>, i: int, l: int) -> bool {
    forall|j: int| i <= j < l ==> #[trigger] s[j] == 0
}

/// A longer address reads as its parts in hexadecimal with colons between them;
/// the first one of its longest runs of noughts, if that has two or more, is
/// left out between two colons. `run` tells where that run begins and its length.
pub proof fn law_longer_address_written(n: u128) -> (run: (int, int))
    requires
        n / 0x1_0000_0000 != 0xFFFF,
    ensures
        ({
            let s = segments(n);
            let (at, len) = run;
            &&& s.len() == 8
            &&& 0 <= at && 0 <= len && at + len <= 8
            &&& forall|j: int| at <= j < at + len ==> #[trigger] s[j] == 0
            &&& forall|i: int, l: int|
                0 <= i < l <= 8 && #[trigger] noughts(s, i, l) ==> l - i < len || l - i == len && at
                    <= i
            &&& len >= 2 ==> ip_text(IpAddr::V6(n)) == hex_list(s.subrange(0, at)) + "::"@ + hex_list(
                s.subrange(at + len, 8),
            )
            &&& len <= 1 ==> ip_text(IpAddr::V6(n)) == hex_list(s)
        }),
{
    let s = segments(n);
    reveal_with_fuel(segments_of, 9);
    assert(s.len() == 8);
    lemma_longest(s, 8);
    let b = longest_run(s, 8);
    let run = if b.1 > 0 { (b.0, b.1 as int) } else { (0int, 0int) };
    if b.1 > 0 {
        lemma_run(s, b.0);
    }
    assert forall|i: int, l: int| 0 <= i < l <= 8 && #[trigger] noughts(s, i, l) implies l - i < run.1
        || l - i == run.1 && run.0 <= i by {
        lemma_run(s, i);
        assert(zero_run(s, i) <= b.1);
        if i + zero_run(s, i) < l {
            assert(s[i + zero_run(s, i)] == 0);
        }
        if i < b.0 {
            assert(zero_run(s, i) < b.1);
        }
    }
    run
}

} // verus!
