//! What is known of addresses: names, fingerprints and places.

use vstd::prelude::*;
use vstd::string::*;

use crate::device::{DeviceInfo, InfoView};
use crate::fingerprint;
use crate::fingerprint::guess_os;
use crate::geoip;
use crate::geoip::{GeoInfo, GeoView, format_geo_tag, is_city_readable};
use crate::net;
use crate::net::{IpAddr, is_private_ip};
use crate::packet::{CapturedPacket, PacketView};
use crate::table::{Dup, Table};
use crate::traffic;

verus! {

/// What is known of addresses.
pub struct Names {
    /// The name that an address was resolved from.
    pub dns_cache: Table<IpAddr, String>,
    /// The most common fingerprint of the TLS clients of an address, and how many clients
    /// there were.
    pub tls_fingerprints: Table<IpAddr, (String, u32)>,
    /// How often each fingerprint of the TLS clients of an address was seen.
    pub tls_counts: Table<IpAddr, Table<String, u32>>,
    /// The options that a DHCP client asked for.
    pub dhcp_fingerprints: Table<IpAddr, String>,
    /// The guess at the operating system, and how sure it is.
    pub os_fingerprints: Table<IpAddr, (&'static str, u8)>,
    pub geo_cache: Table<IpAddr, GeoInfo>,
}

/// What is known of addresses.
pub struct NamesView {
    pub dns_cache: Map<IpAddr, Seq<char>>,
    pub tls_fingerprints: Map<IpAddr, (Seq<char>, u32)>,
    pub tls_counts: Map<IpAddr, Map<Seq<char>, u32>>,
    pub dhcp_fingerprints: Map<IpAddr, Seq<char>>,
    pub os_fingerprints: Map<IpAddr, (Seq<char>, u8)>,
    pub geo_cache: Map<IpAddr, GeoView>,
}

impl View for Names {
    type V = NamesView;

    open spec fn view(&self) -> NamesView {
        NamesView {
            dns_cache: self.dns_cache@,
            tls_fingerprints: self.tls_fingerprints@,
            tls_counts: self.tls_counts@,
            dhcp_fingerprints: self.dhcp_fingerprints@,
            os_fingerprints: self.os_fingerprints@,
            geo_cache: self.geo_cache@,
        }
    }
}

/// Nothing known yet.
pub open spec fn no_names() -> NamesView {
    NamesView {
        dns_cache: Map::empty(),
        tls_fingerprints: Map::empty(),
        tls_counts: Map::empty(),
        dhcp_fingerprints: Map::empty(),
        os_fingerprints: Map::empty(),
        geo_cache: Map::empty(),
    }
}

/// The value at an address, if there is one.
pub open spec fn at<V>(m: Map<IpAddr, V>, ip: IpAddr) -> Option<V> {
    if m.dom().contains(ip) {
        Some(m[ip])
    } else {
        None
    }
}

/// The names with one name for several addresses.
pub open spec fn named_all(
    m: Map<IpAddr, Seq<char>>,
    ips: Seq<IpAddr>,
    name: Seq<char>,
) -> Map<IpAddr, Seq<char>>
    decreases ips.len(),
{
    if ips.len() == 0 {
        m
    } else {
        named_all(m, ips.drop_last(), name).insert(ips.last(), name)
    }
}

/// The names after a packet: what a DNS response says, and for the receiver
/// what a client asked it for, where no name is known.
pub open spec fn names_after(m: Map<IpAddr, Seq<char>>, p: PacketView) -> Map<IpAddr, Seq<char>> {
    let a = match p.dns_answers {
        Some((name, ips)) => named_all(m, ips, name),
        None => m,
    };
    match p.domain_hint {
        Some(name) => traffic::first_kept(a, p.dst_ip, name),
        None => a,
    }
}

/// Every address that a DNS response gives has its name afterwards.
pub proof fn law_response_names_addresses(
    m: Map<IpAddr, Seq<char>>,
    ips: Seq<IpAddr>,
    name: Seq<char>,
    i: int,
)
    requires
        0 <= i < ips.len(),
    ensures
        named_all(m, ips, name).dom().contains(ips[i]),
        named_all(m, ips, name)[ips[i]] == name,
    decreases ips.len(),
{
    if i < ips.len() - 1 {
        law_response_names_addresses(m, ips.drop_last(), name, i);
    }
}

/// How often each fingerprint of an address was seen.
pub open spec fn prints_of(m: Map<IpAddr, Map<Seq<char>, u32>>, ip: IpAddr) -> Map<Seq<char>, u32> {
    if m.dom().contains(ip) {
        m[ip]
    } else {
        Map::empty()
    }
}

/// How often a fingerprint was seen.
pub open spec fn times(m: Map<Seq<char>, u32>, print: Seq<char>) -> u32 {
    if m.dom().contains(print) {
        m[print]
    } else {
        0
    }
}

/// The counts of fingerprints after a packet: those of senders in private
/// networks are counted.
pub open spec fn counts_after(m: Map<IpAddr, Map<Seq<char>, u32>>, p: PacketView) -> Map<
    IpAddr,
    Map<Seq<char>, u32>,
> {
    match p.tls_fingerprint {
        Some(ja4) if net::private_ip(p.src_ip) => m.insert(
            p.src_ip,
            prints_of(m, p.src_ip).insert(
                ja4,
                traffic::plus_one32(times(prints_of(m, p.src_ip), ja4)),
            ),
        ),
        _ => m,
    }
}

/// The TLS clients after a packet, given the counts after it: a sender's
/// fingerprint takes the place of the one that is kept once it is the more
/// common of the two, and all clients are counted.
pub open spec fn clients_after(
    m: Map<IpAddr, (Seq<char>, u32)>,
    counts: Map<IpAddr, Map<Seq<char>, u32>>,
    p: PacketView,
) -> Map<IpAddr, (Seq<char>, u32)> {
    match p.tls_fingerprint {
        Some(ja4) if net::private_ip(p.src_ip) => if m.dom().contains(p.src_ip) {
            let kept = m[p.src_ip].0;
            let c = prints_of(counts, p.src_ip);
            m.insert(
                p.src_ip,
                (
                    if times(c, kept) < times(c, ja4) {
                        ja4
                    } else {
                        kept
                    },
                    traffic::plus_one32(m[p.src_ip].1),
                ),
            )
        } else {
            m.insert(p.src_ip, (ja4, 1))
        },
        _ => m,
    }
}

impl NamesView {
    /// One more TLS client can be counted.
    pub open spec fn room(self, p: PacketView) -> bool {
        match p.tls_fingerprint {
            Some(ja4) if net::private_ip(p.src_ip) => {
                &&& self.tls_fingerprints.dom().contains(p.src_ip)
                    ==> self.tls_fingerprints[p.src_ip].1 < u32::MAX
                &&& times(prints_of(self.tls_counts, p.src_ip), ja4) < u32::MAX
            },
            _ => true,
        }
    }

    /// The fingerprint that is kept of an address is one of those that were
    /// seen most often.
    pub open spec fn commonest_kept(self) -> bool {
        &&& self.tls_fingerprints.dom() == self.tls_counts.dom()
        &&& forall|ip: IpAddr, print: Seq<char>|
            self.tls_fingerprints.dom().contains(ip) ==> #[trigger] times(
                prints_of(self.tls_counts, ip),
                print,
            ) <= times(prints_of(self.tls_counts, ip), self.tls_fingerprints[ip].0)
    }

    /// What is known after a packet.
    pub open spec fn with(self, p: PacketView, devices: Map<IpAddr, InfoView>) -> NamesView {
        NamesView {
            dns_cache: names_after(self.dns_cache, p),
            tls_fingerprints: clients_after(
                self.tls_fingerprints,
                counts_after(self.tls_counts, p),
                p,
            ),
            tls_counts: counts_after(self.tls_counts, p),
            os_fingerprints: fingerprint::guesses_after(
                self.os_fingerprints,
                p.src_ip,
                p.ttl,
                p.tcp_window,
                devices,
            ),
            ..self
        }
    }

    /// The place of an address can be written, if it is known.
    pub open spec fn place_readable(self, ip: IpAddr) -> bool {
        self.geo_cache.dom().contains(ip) ==> geoip::city_readable(self.geo_cache[ip])
    }

    /// The place of an address with a space before it; nothing where it is not known.
    pub open spec fn place(self, ip: IpAddr) -> Seq<char> {
        if self.geo_cache.dom().contains(ip) {
            " "@ + geoip::geo_tag(self.geo_cache[ip])
        } else {
            Seq::empty()
        }
    }

    /// Whose an address is, if that is known.
    pub open spec fn org(self, ip: IpAddr) -> Option<Seq<char>> {
        if self.geo_cache.dom().contains(ip) {
            Some(self.geo_cache[ip].org)
        } else {
            None
        }
    }
}

impl Names {
    /// Nothing known yet.
    pub fn new() -> (r: Names)
        ensures
            r@ == no_names(),
    {
        Names {
            dns_cache: Table::new(),
            tls_fingerprints: Table::new(),
            tls_counts: Table::new(),
            dhcp_fingerprints: Table::new(),
            os_fingerprints: Table::new(),
            geo_cache: Table::new(),
        }
    }

    /// Whether one more TLS client can be counted.
    pub fn has_room(&self, p: &CapturedPacket) -> (r: bool)
        ensures
            r == self@.room(p@),
    {
        let ja4 = match &p.tls_fingerprint {
            Some(ja4) => ja4,
            None => {
                return true;
            },
        };
        if !is_private_ip(&p.src_ip) {
            return true;
        }
        let few = match self.tls_fingerprints.get(&p.src_ip) {
            Some(t) => t.1 < u32::MAX,
            None => true,
        };
        few && self.times_seen(&p.src_ip, ja4) < u32::MAX
    }

    fn note_dns(&mut self, p: &CapturedPacket)
        ensures
            final(self)@ == (NamesView {
                dns_cache: names_after(old(self)@.dns_cache, p@),
                ..old(self)@
            }),
    {
        if let Some(d) = &p.dns_answers {
            let n: usize = d.1.len();
            let ghost start = self@.dns_cache;
            for i in 0..n
                invariant
                    n == d.1@.len(),
                    self@ == (NamesView {
                        dns_cache: named_all(start, d.1@.take(i as int), d.0@),
                        ..old(self)@
                    }),
            {
                assert(d.1@.take(i + 1).drop_last() =~= d.1@.take(i as int));
                self.dns_cache.insert(d.1[i], d.0.as_str().to_owned());
            }
            assert(d.1@.take(n as int) =~= d.1@);
        }
        if let Some(h) = &p.domain_hint {
            if !self.dns_cache.contains_key(&p.dst_ip) {
                self.dns_cache.insert(p.dst_ip, h.as_str().to_owned());
            }
        }
    }

    fn times_seen(&self, ip: &IpAddr, print: &String) -> (r: u32)
        ensures
            r == times(prints_of(self@.tls_counts, *ip), print@),
    {
        match self.tls_counts.get(ip) {
            Some(c) => match c.get(print) {
                Some(n) => *n,
                None => 0,
            },
            None => 0,
        }
    }

    fn count_client(&mut self, ip: IpAddr, print: &String)
        requires
            times(prints_of(old(self)@.tls_counts, ip), print@) < u32::MAX,
        ensures
            final(self)@ == (NamesView {
                tls_counts: old(self)@.tls_counts.insert(
                    ip,
                    prints_of(old(self)@.tls_counts, ip).insert(
                        print@,
                        traffic::plus_one32(times(prints_of(old(self)@.tls_counts, ip), print@)),
                    ),
                ),
                ..old(self)@
            }),
    {
        let n: u32 = self.times_seen(&ip, print);
        let mut c: Table<String, u32> = match self.tls_counts.get(&ip) {
            Some(c) => c.dup(),
            None => Table::new(),
        };
        c.insert(print.as_str().to_owned(), n + 1);
        self.tls_counts.insert(ip, c);
    }

    fn note_client(&mut self, p: &CapturedPacket)
        requires
            old(self)@.room(p@),
        ensures
            final(self)@ == (NamesView {
                tls_fingerprints: clients_after(
                    old(self)@.tls_fingerprints,
                    counts_after(old(self)@.tls_counts, p@),
                    p@,
                ),
                tls_counts: counts_after(old(self)@.tls_counts, p@),
                ..old(self)@
            }),
    {
        if let Some(ja4) = &p.tls_fingerprint {
            if is_private_ip(&p.src_ip) {
                self.count_client(p.src_ip, ja4);
                let seen: u32 = self.times_seen(&p.src_ip, ja4);
                let (name, n): (String, u32) = match self.tls_fingerprints.get(&p.src_ip) {
                    Some(t) => if self.times_seen(&p.src_ip, &t.0) < seen {
                        (ja4.as_str().to_owned(), t.1)
                    } else {
                        (t.0.as_str().to_owned(), t.1)
                    },
                    None => (ja4.as_str().to_owned(), 0),
                };
                self.tls_fingerprints.insert(p.src_ip, (name, n + 1));
            }
        }
    }

    /// Takes a packet into account.
    pub fn note(&mut self, p: &CapturedPacket, devices: &Table<IpAddr, DeviceInfo>)
        requires
            old(self)@.room(p@),
        ensures
            final(self)@ == old(self)@.with(p@, devices@),
    {
        guess_os(&mut self.os_fingerprints, p.src_ip, p.ttl, p.tcp_window, devices);
        self.note_dns(p);
        self.note_client(p);
    }

    /// Whether the place of an address can be written, if it is known.
    pub fn is_place_readable(&self, ip: &IpAddr) -> (r: bool)
        ensures
            r == self@.place_readable(*ip),
    {
        match self.geo_cache.get(ip) {
            Some(g) => is_city_readable(g),
            None => true,
        }
    }

    /// The place of an address with a space before it; nothing where it is not known.
    pub fn place_of(&self, ip: &IpAddr) -> (r: String)
        requires
            self@.place_readable(*ip),
        ensures
            r@ == self@.place(*ip),
    {
        match self.geo_cache.get(ip) {
            Some(g) => {
                let mut r = " ".to_owned();
                r.append(format_geo_tag(g).as_str());
                r
            },
            None => String::new(),
        }
    }

    /// Whose an address is, if that is known.
    pub fn org_of(&self, ip: &IpAddr) -> (r: Option<&String>)
        ensures
            fingerprint::ref_text(r) == self@.org(*ip),
    {
        match self.geo_cache.get(ip) {
            Some(g) => Some(&g.org),
            None => None,
        }
    }
}

/// The fingerprint that is kept of an address stays one of those that were seen
/// most often, from nothing known on and with every packet.
pub proof fn law_commonest_client_kept(
    n: NamesView,
    p: PacketView,
    devices: Map<IpAddr, InfoView>,
)
    requires
        n.commonest_kept(),
        n.room(p),
    ensures
        no_names().commonest_kept(),
        n.with(p, devices).commonest_kept(),
{
    let r = n.with(p, devices);
    assert(no_names().tls_fingerprints.dom() =~= no_names().tls_counts.dom());
    assert(r.tls_fingerprints.dom() =~= r.tls_counts.dom());
    if p.tls_fingerprint is Some && net::private_ip(p.src_ip) {
        let ja4 = p.tls_fingerprint->0;
        let before = prints_of(n.tls_counts, p.src_ip);
        let after = prints_of(r.tls_counts, p.src_ip);
        assert forall|ip: IpAddr, print: Seq<char>|
            r.tls_fingerprints.dom().contains(ip) implies #[trigger] times(
            prints_of(r.tls_counts, ip),
            print,
        ) <= times(prints_of(r.tls_counts, ip), r.tls_fingerprints[ip].0) by {
            if ip != p.src_ip {
                assert(prints_of(r.tls_counts, ip) == prints_of(n.tls_counts, ip));
                assert(times(prints_of(n.tls_counts, ip), print) <= times(
                    prints_of(n.tls_counts, ip),
                    n.tls_fingerprints[ip].0,
                ));
            } else if n.tls_fingerprints.dom().contains(ip) {
                let kept = n.tls_fingerprints[ip].0;
                assert(times(before, print) <= times(before, kept));
                assert(times(before, ja4) <= times(before, kept));
                assert(print != ja4 ==> times(after, print) == times(before, print));
                assert(kept != ja4 ==> times(after, kept) == times(before, kept));
            } else {
                assert(print != ja4 ==> times(after, print) == times(before, print));
            }
        }
    }
}

} // verus!
