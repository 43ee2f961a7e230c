//! How addresses are shown: by name, by operating system, and with a short label.

use vstd::prelude::*;
use vstd::string::*;
use vstd::utf8::*;

use crate::category;
use crate::device::{DetailsView, DeviceDetails, DeviceInfo, InfoView};
use crate::fingerprint;
use crate::fingerprint::{guess_os, model_of, resolve_os_tag};
use crate::geoip;
use crate::geoip::{GeoView, format_geo_tag, is_city_readable};
use crate::hostname;
use crate::hostname::{DASH, clean_hostname, is_worth_showing};
use crate::names;
use crate::names::NamesView;
use crate::net;
use crate::net::{IpAddr, ip_string, is_private_ip};
use crate::packet::CapturedPacket;
use crate::state;
use crate::state::AppState;
use crate::table::Table;
use crate::text;
use crate::text::{cut, drop_suffixes, same};
use crate::traffic;
use crate::traffic::{ProfileView, classify_device_type};

verus! {

/// What is known of devices and names, as far as it decides how an address is shown.
pub struct HostsView {
    pub dns_cache: Map<IpAddr, Seq<char>>,
    pub active: Map<IpAddr, InfoView>,
    pub passive: Map<IpAddr, InfoView>,
    pub details: Map<IpAddr, DetailsView>,
    pub profiles: Map<IpAddr, ProfileView>,
    pub dhcp: Map<IpAddr, Seq<char>>,
    pub guesses: Map<IpAddr, (Seq<char>, u8)>,
    pub places: Map<IpAddr, GeoView>,
    pub known: Option<Set<IpAddr>>,
}

impl AppState {
    /// What decides how an address is shown.
    pub open spec fn hosts(&self) -> HostsView {
        HostsView {
            dns_cache: self.names.dns_cache@,
            active: self.devices.active_discovery@,
            passive: self.devices.passive_discovery@,
            details: self.devices.device_metadata@,
            profiles: self.traffic_profiles@,
            dhcp: self.names.dhcp_fingerprints@,
            guesses: self.names.os_fingerprints@,
            places: self.names.geo_cache@,
            known: state::taken_set(self.devices.baseline),
        }
    }
}

/// A cleaned name, if it is worth showing.
pub open spec fn good_name(raw: Option<Seq<char>>) -> Option<Seq<char>> {
    match raw {
        Some(s) if hostname::worth_showing(hostname::cleaned(s)) => Some(hostname::cleaned(s)),
        _ => None,
    }
}

/// A cleaned name of a model, if there is anything to show.
pub open spec fn good_model(d: Option<DetailsView>) -> Option<Seq<char>> {
    match d {
        Some(details) => match fingerprint::told_model(details) {
            Some(m) if hostname::cleaned(m) != DASH@ && hostname::cleaned(m).len() > 0 => Some(hostname::cleaned(m)),
            _ => None,
        },
        None => None,
    }
}

/// The name of the host of a device.
pub open spec fn host_of(d: Option<InfoView>) -> Option<Seq<char>> {
    match d {
        Some(info) => Some(info.hostname),
        None => None,
    }
}

/// The kind of a device by its traffic.
pub open spec fn kind_of(p: Option<ProfileView>) -> Option<Seq<char>> {
    match p {
        Some(profile) => traffic::device_type(profile),
        None => None,
    }
}

impl HostsView {
    /// The name under which an address is shown: the name it was resolved
    /// from, else, in private networks, the name by which it was found, the
    /// model that it tells, the name by which it was overheard, or its kind;
    /// else the address itself.
    pub open spec fn shown_name(self, ip: IpAddr) -> Seq<char> {
        match good_name(names::at(self.dns_cache, ip)) {
            Some(n) => n,
            None => if net::private_ip(ip) {
                match good_name(host_of(names::at(self.active, ip))) {
                    Some(n) => n,
                    None => match good_model(names::at(self.details, ip)) {
                        Some(n) => n,
                        None => match good_name(host_of(names::at(self.passive, ip))) {
                            Some(n) => n,
                            None => geoip::or_text(kind_of(names::at(self.profiles, ip)), net::ip_text(ip)),
                        },
                    },
                }
            } else {
                net::ip_text(ip)
            },
        }
    }

    /// The tag of the operating system of an address.
    pub open spec fn shown_os(self, ip: IpAddr) -> Seq<char> {
        fingerprint::shown_tag(
            names::at(self.dhcp, ip),
            names::at(self.details, ip),
            match names::at(self.guesses, ip) {
                Some(g) => Some(g.0),
                None => None,
            },
            names::at(self.active, ip),
        )
    }
}

pub(crate) fn try_name(raw: Option<&String>) -> (r: Option<String>)
    ensures
        text::text_view(r) == good_name(fingerprint::ref_text(raw)),
{
    match raw {
        Some(s) => {
            let c = clean_hostname(s.as_str());
            if is_worth_showing(c.as_str()) {
                Some(c)
            } else {
                None
            }
        },
        None => None,
    }
}

pub(crate) fn try_model(d: Option<&DeviceDetails>) -> (r: Option<String>)
    ensures
        text::text_view(r) == good_model(category::details_view(d)),
{
    if let Some(details) = d {
        if let Some(m) = model_of(details) {
            let c = clean_hostname(m.as_str());
            if !same(c.as_str(), DASH) && !c.as_str().is_empty() {
                return Some(c);
            }
        }
    }
    None
}

fn try_host(t: &Table<IpAddr, DeviceInfo>, ip: &IpAddr) -> (r: Option<String>)
    ensures
        text::text_view(r) == good_name(host_of(names::at(t@, *ip))),
{
    match t.get(ip) {
        Some(dev) => try_name(Some(&dev.hostname)),
        None => None,
    }
}

impl AppState {
    /// The name under which an address is shown.
    pub fn get_display_hostname(&self, ip: &IpAddr) -> (r: String)
        ensures
            r@ == self.hosts().shown_name(*ip),
    {
        if let Some(n) = try_name(self.names.dns_cache.get(ip)) {
            return n;
        }
        if is_private_ip(ip) {
            if let Some(n) = try_host(&self.devices.active_discovery, ip) {
                return n;
            }
            if let Some(n) = try_model(self.devices.device_metadata.get(ip)) {
                return n;
            }
            if let Some(n) = try_host(&self.devices.passive_discovery, ip) {
                return n;
            }
            if let Some(p) = self.traffic_profiles.get(ip) {
                if let Some(kind) = classify_device_type(p) {
                    return kind.to_owned();
                }
            }
        }
        ip_string(ip)
    }

    /// The tag of the operating system of an address.
    pub fn get_resolved_os_tag(&self, ip: &IpAddr) -> (r: String)
        ensures
            r@ == self.hosts().shown_os(*ip),
    {
        let guess: Option<&'static str> = match self.names.os_fingerprints.get(ip) {
            Some(g) => Some(g.0),
            None => None,
        };
        resolve_os_tag(
            self.names.dhcp_fingerprints.get(ip),
            self.devices.device_metadata.get(ip),
            guess,
            self.devices.active_discovery.get(ip),
        )
    }

    /// Takes the hop limit and window of a packet into account as a guess at
    /// the operating system of its sender.
    pub fn update_os_fingerprint(&mut self, pkt: &CapturedPacket)
        ensures
            final(self).names@ == (NamesView {
                os_fingerprints: fingerprint::guesses_after(
                    old(self).names@.os_fingerprints,
                    pkt.src_ip,
                    pkt.ttl,
                    pkt.tcp_window,
                    old(self).devices.active_discovery@,
                ),
                ..old(self).names@
            }),
            *final(self) == (AppState { names: final(self).names, ..*old(self) }),
    {
        guess_os(
            &mut self.names.os_fingerprints,
            pkt.src_ip,
            pkt.ttl,
            pkt.tcp_window,
            &self.devices.active_discovery,
        );
    }
}

// ---------------------------------------------------------------------------
// Short labels
// ---------------------------------------------------------------------------

/// A text of more than `most` bytes is cut behind `keep` bytes, with two dots.
pub open spec fn shortened(s: Seq<char>, most: int, keep: int) -> Seq<char> {
    if text::byte_len(s) > most {
        text::first_bytes(s, keep) + ".."@
    } else {
        s
    }
}

/// A text can be cut, if it is too long.
pub open spec fn shortenable(s: Seq<char>, most: int, keep: int) -> bool {
    text::byte_len(s) > most ==> text::cut_ok(s, keep)
}

fn is_shortenable(s: &str, most: usize, keep: usize) -> (r: bool)
    ensures
        r == shortenable(s@, most as int, keep as int),
{
    s.as_bytes().len() <= most || s.is_char_boundary(keep)
}

fn shorten(s: &str, most: usize, keep: usize) -> (r: String)
    requires
        shortenable(s@, most as int, keep as int),
        keep <= most,
    ensures
        r@ == shortened(s@, most as int, keep as int),
{
    if s.as_bytes().len() <= most {
        return s.to_owned();
    }
    let mut r = cut(s, keep);
    r.append("..");
    r
}

impl HostsView {
    /// An address is shown by a name of its own.
    pub open spec fn named(self, ip: IpAddr) -> bool {
        let name = self.shown_name(ip);
        name != net::ip_text(ip) && hostname::worth_showing(name)
    }

    /// The short label of an address can be written.
    pub open spec fn labelable(self, ip: IpAddr) -> bool {
        let name = self.shown_name(ip);
        if net::private_ip(ip) {
            self.named(ip) ==> shortenable(name, 14, 12)
        } else if self.named(ip) {
            shortenable(text::without_suffixes(name, "."@), 20, 18)
        } else {
            self.places.dom().contains(ip) ==> geoip::city_readable(self.places[ip])
        }
    }

    /// The short label of an address: in private networks with its operating
    /// system, outside with its place where it has no name.
    pub open spec fn label(self, ip: IpAddr) -> Seq<char> {
        let name = self.shown_name(ip);
        if net::private_ip(ip) {
            (if self.named(ip) { shortened(name, 14, 12) } else { net::ip_text(ip) }) + " "@
                + self.shown_os(ip)
        } else if self.named(ip) {
            shortened(text::without_suffixes(name, "."@), 20, 18)
        } else if self.places.dom().contains(ip) {
            net::ip_text(ip) + " "@ + geoip::geo_tag(self.places[ip])
        } else {
            net::ip_text(ip)
        }
    }
}

impl AppState {
    fn is_named(&self, ip: &IpAddr, name: &str) -> (r: bool)
        requires
            name@ == self.hosts().shown_name(*ip),
        ensures
            r == self.hosts().named(*ip),
    {
        !same(name, ip_string(ip).as_str()) && is_worth_showing(name)
    }

    /// The short label of an address.
    pub fn build_short_label(&self, ip: &IpAddr) -> (r: String)
        requires
            self.hosts().labelable(*ip),
        ensures
            r@ == self.hosts().label(*ip),
    {
        let name = self.get_display_hostname(ip);
        let named = self.is_named(ip, name.as_str());
        if is_private_ip(ip) {
            let mut r = if named {
                shorten(name.as_str(), 14, 12)
            } else {
                ip_string(ip)
            };
            r.append(" ");
            r.append(self.get_resolved_os_tag(ip).as_str());
            return r;
        }
        if named {
            return shorten(drop_suffixes(name.as_str(), ".").as_str(), 20, 18);
        }
        let mut r = ip_string(ip);
        if let Some(g) = self.names.geo_cache.get(ip) {
            r.append(" ");
            r.append(format_geo_tag(g).as_str());
        }
        r
    }

    /// Whether the short label of an address can be written.
    pub fn is_labelable(&self, ip: &IpAddr) -> (r: bool)
        ensures
            r == self.hosts().labelable(*ip),
    {
        let name = self.get_display_hostname(ip);
        let named = self.is_named(ip, name.as_str());
        if is_private_ip(ip) {
            !named || is_shortenable(name.as_str(), 14, 12)
        } else if named {
            is_shortenable(drop_suffixes(name.as_str(), ".").as_str(), 20, 18)
        } else {
            match self.names.geo_cache.get(ip) {
                Some(g) => is_city_readable(g),
                None => true,
            }
        }
    }

    /// The short label of an address, or nothing where it cannot be written.
    pub fn try_short_label(&self, ip: &IpAddr) -> (r: Option<String>)
        ensures
            match r {
                Some(s) => self.hosts().labelable(*ip) && s@ == self.hosts().label(*ip),
                None => !self.hosts().labelable(*ip),
            },
    {
        if self.is_labelable(ip) {
            Some(self.build_short_label(ip))
        } else {
            None
        }
    }
}

/// An address outside of private networks that was not resolved from a name
/// is shown as it is.
pub proof fn law_unnamed_shown_as_address(h: HostsView, ip: IpAddr)
    requires
        !net::private_ip(ip),
        !h.dns_cache.dom().contains(ip),
    ensures
        h.shown_name(ip) == net::ip_text(ip),
{
}

/// A name is shown when it is none of the words for no name.
pub open spec fn tells(name: Seq<char>) -> bool {
    name.len() > 0 && name != "\u{2014}"@ && name != "Resolving..."@
}

/// The name that is shown of an address: the resolved one first; of an address
/// in a private network then the one it was discovered by, its model, the one
/// it was overheard by, what its traffic tells, and at last the address.
pub proof fn law_names_by_rank(h: HostsView, n: u32)
    ensures
        ({
            let ip = IpAddr::V4(n);
            let private = 0x0A00_0000 <= n <= 0x0AFF_FFFF || 0xAC10_0000 <= n <= 0xAC1F_FFFF
                || 0xC0A8_0000 <= n <= 0xC0A8_FFFF;
            let resolved = h.dns_cache.dom().contains(ip) && tells(
                hostname::cleaned(h.dns_cache[ip]),
            );
            let found = h.active.dom().contains(ip) && tells(
                hostname::cleaned(h.active[ip].hostname),
            );
            let modelled = h.details.dom().contains(ip) && h.details[ip].property("model"@) is Some
                && tells(hostname::cleaned(h.details[ip].property("model"@)->0));
            let no_model = !h.details.dom().contains(ip);
            let overheard = h.passive.dom().contains(ip) && tells(
                hostname::cleaned(h.passive[ip].hostname),
            );
            let kind = if h.profiles.dom().contains(ip) {
                traffic::device_type(h.profiles[ip])
            } else {
                None
            };
            &&& resolved ==> h.shown_name(ip) == hostname::cleaned(h.dns_cache[ip])
            &&& !resolved && !private ==> h.shown_name(ip) == net::ip_text(ip)
            &&& !resolved && private && found ==> h.shown_name(ip) == hostname::cleaned(
                h.active[ip].hostname,
            )
            &&& !resolved && private && !found && modelled ==> h.shown_name(ip) == hostname::cleaned(
                h.details[ip].property("model"@)->0,
            )
            &&& !resolved && private && !found && no_model && overheard ==> h.shown_name(ip)
                == hostname::cleaned(h.passive[ip].hostname)
            &&& !resolved && private && !found && no_model && !overheard && kind is Some
                ==> h.shown_name(ip) == kind->0
            &&& !resolved && private && !found && no_model && !overheard && kind is None
                ==> h.shown_name(ip) == net::ip_text(ip)
        }),
{
    net::law_private_ranges(n);
}

/// The label of an address: of one in a private network its name, cut to
/// twelve characters with two full stops where it has more than fourteen, or
/// the address, and its system; of any other its name, cut to eighteen where
/// it has more than twenty, or the address and its place. Names here are ASCII.
pub proof fn law_labels(h: HostsView, n: u32)
    requires
        text::all_ascii(h.shown_name(IpAddr::V4(n))),
    ensures
        ({
            let ip = IpAddr::V4(n);
            let private = 0x0A00_0000 <= n <= 0x0AFF_FFFF || 0xAC10_0000 <= n <= 0xAC1F_FFFF
                || 0xC0A8_0000 <= n <= 0xC0A8_FFFF;
            let name = h.shown_name(ip);
            let named = name != net::ip_text(ip) && tells(name);
            &&& private && named && name.len() <= 14 ==> h.label(ip) == name + " "@ + h.shown_os(ip)
            &&& private && named && name.len() > 14 ==> h.label(ip) == name.take(12) + ".."@ + " "@
                + h.shown_os(ip)
            &&& private && !named ==> h.label(ip) == net::ip_text(ip) + " "@ + h.shown_os(ip)
            &&& !private && named && name.len() <= 20 && name.last() != '.' ==> h.label(ip) == name
            &&& !private && named && name.len() > 20 && name.last() != '.' ==> h.label(ip)
                == name.take(18) + ".."@
            &&& !private && !named && h.places.dom().contains(ip) ==> h.label(ip) == net::ip_text(ip)
                + " "@ + geoip::geo_tag(h.places[ip])
            &&& !private && !named && !h.places.dom().contains(ip) ==> h.label(ip) == net::ip_text(ip)
        }),
{
    net::law_private_ranges(n);
    let name = h.shown_name(IpAddr::V4(n));
    text::lemma_ascii_cut(name, 0);
    if name.len() > 14 {
        text::lemma_ascii_cut(name, 12);
    }
    if name.len() > 20 {
        text::lemma_ascii_cut(name, 18);
    }
    reveal_strlit(".");
    if name.len() > 0 && name.last() != '.' {
        if text::ends(name, "."@) {
            assert(name.subrange(name.len() - 1, name.len() as int)[0] == name.last());
        }
        assert(text::without_suffixes(name, "."@) == name);
    }
}

} // verus!
