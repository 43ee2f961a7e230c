//! The graph: how its nodes look, and what is told of the one that is chosen.

use vstd::prelude::*;
use vstd::string::*;

use crate::alerts::AlertView;
use crate::category;
use crate::device::{DetailsView, DeviceDetails};
use crate::dhcp;
use crate::dhcp::classify_dhcp;
use crate::fingerprint;
use crate::formatting;
use crate::formatting::{format_bytes, format_duration, format_with_commas, truncate_str};
use crate::geoip;
use crate::hostname;
use crate::hostname::clean_hostname;
use crate::hosts;
use crate::hosts::HostsView;
use crate::inventory;
use crate::inventory::push_line;
use crate::names;
use crate::net;
use crate::net::{IpAddr, ip_string, is_private_ip};
use crate::order;
use crate::panels::Tone;
use crate::scan;
use crate::scan::{RESOLVING, is_no_name};
use crate::state::AppState;
use crate::table::Dup;
use crate::text;
use crate::text::{dec_text, padded_right, same};
use crate::traffic;
use crate::traffic::{SECOND, classify_device_type, count_at};

verus! {

// ---------------------------------------------------------------------------
// Nodes
// ---------------------------------------------------------------------------

/// How long a node is shown as active after traffic, in nanoseconds.
pub const ACTIVE_TIME: u64 = 1_500_000_000;

/// An address is one of the two ends of an edge.
pub open spec fn is_end(edge: (IpAddr, IpAddr), ip: IpAddr) -> bool {
    edge.0 == ip || edge.1 == ip
}

/// There was traffic lately at an address.
pub open spec fn is_active(edges: Map<(IpAddr, IpAddr), u64>, ip: IpAddr, now: u64) -> bool {
    exists|e: (IpAddr, IpAddr)| #[trigger]
        edges.dom().contains(e) && is_end(e, ip) && formatting::since(now, edges[e]) < ACTIVE_TIME
}

/// An address is named in an alert of the highest tier.
pub open spec fn is_alerted(alerts: Seq<AlertView>, ip: IpAddr) -> bool {
    exists|i: int| 0 <= i < alerts.len() && (#[trigger] alerts[i]).remote_ip == Some(ip)
}

/// The colour of a node: of one that is alerted, active, local or remote.
pub open spec fn node_tone(alerted: bool, active: bool, local: bool) -> Tone {
    if alerted {
        Tone::Danger
    } else if active {
        Tone::Normal
    } else if local {
        Tone::Local
    } else {
        Tone::Warning
    }
}

/// The colour of the label of a node.
pub open spec fn label_tone(alerted: bool, active: bool, local: bool) -> Tone {
    if !alerted && !active && !local {
        Tone::Muted
    } else {
        node_tone(alerted, active, local)
    }
}

/// The sign of a node.
pub open spec fn node_sign(active: bool, chosen: bool) -> Seq<char> {
    let dot = if active {
        "\u{25c9}"@
    } else {
        "\u{25cf}"@
    };
    if chosen {
        "\u{25ba}"@ + dot + "\u{25c4}"@
    } else {
        dot
    }
}

/// How a node looks.
pub struct NodeLook {
    pub sign: String,
    pub tone: Tone,
    pub label_tone: Tone,
    pub chosen: bool,
}

impl AppState {
    fn has_traffic(&self, ip: &IpAddr, now: u64) -> (r: bool)
        ensures
            r == is_active(self.flows@.edge_last_seen, *ip, now),
    {
        let t = &self.flows.edge_last_seen;
        let n: usize = t.len();
        let ghost items = t.items();
        for i in 0..n
            invariant
                n == items.len(),
                t == &self.flows.edge_last_seen,
                items == t.items(),
                forall|j: int|
                    0 <= j < n ==> t@.dom().contains((#[trigger] items[j]).0) && t@[items[j].0]
                        == items[j].1,
                forall|j: int|
                    0 <= j < i ==> !(is_end((#[trigger] items[j]).0, *ip) && formatting::since(now, items[j].1)
                        < ACTIVE_TIME),
        {
            let (e, then) = t.entry(i);
            assert(items[i as int] == (e@, then@));
            if (e.0 == *ip || e.1 == *ip) && now.saturating_sub(*then) < ACTIVE_TIME {
                assert(t@.dom().contains(e@));
                return true;
            }
        }
        assert forall|e: (IpAddr, IpAddr)| #[trigger] t@.dom().contains(e) implies !(is_end(e, *ip)
            && formatting::since(now, t@[e]) < ACTIVE_TIME) by {
            let j = choose|j: int| 0 <= j < items.len() && (#[trigger] items[j]).0 == e;
            assert(items[j].0 == e);
        }
        false
    }

    fn has_alert(&self, ip: &IpAddr) -> (r: bool)
        ensures
            r == is_alerted(self.alerts@.suspicious, *ip),
    {
        let n: usize = self.alerts.suspicious.len();
        let ghost all = self.alerts@.suspicious;
        for i in 0..n
            invariant
                n == self.alerts.suspicious@.len(),
                all == self.alerts@.suspicious,
                forall|j: int| 0 <= j < i ==> (#[trigger] all[j]).remote_ip != Some(*ip),
        {
            assert(all[i as int] == self.alerts.suspicious@[i as int]@);
            match self.alerts.suspicious[i].remote_ip {
                Some(a) => {
                    if a == *ip {
                        assert(all[i as int].remote_ip == Some(*ip));
                        return true;
                    }
                },
                None => {},
            }
        }
        false
    }

    /// How the node of an address looks.
    pub fn node_look(&self, ip: &IpAddr, now: u64) -> (r: NodeLook)
        ensures
            ({
                let alerted = is_alerted(self.alerts@.suspicious, *ip);
                let active = is_active(self.flows@.edge_last_seen, *ip, now);
                &&& r.tone == node_tone(alerted, active, net::private_ip(*ip))
                &&& r.label_tone == label_tone(alerted, active, net::private_ip(*ip))
                &&& r.chosen == (self.graph.selected_node == Some(*ip))
                &&& r.sign@ == node_sign(active, r.chosen)
            }),
    {
        let alerted = self.has_alert(ip);
        let active = self.has_traffic(ip, now);
        let local = is_private_ip(ip);
        let chosen = match self.graph.selected_node {
            Some(s) => s == *ip,
            None => false,
        };
        let dot = if active {
            "\u{25c9}"
        } else {
            "\u{25cf}"
        };
        let sign = if chosen {
            let mut s = "\u{25ba}".to_owned();
            s.append(dot);
            s.append("\u{25c4}");
            s
        } else {
            dot.to_owned()
        };
        let tone = if alerted {
            Tone::Danger
        } else if active {
            Tone::Normal
        } else if local {
            Tone::Local
        } else {
            Tone::Warning
        };
        let label_tone = if !alerted && !active && !local {
            Tone::Muted
        } else {
            tone
        };
        NodeLook { sign, tone, label_tone, chosen }
    }

    /// The label of the node of this host.
    pub fn host_label(ip: &IpAddr) -> (r: String)
        ensures
            r@ == net::ip_text(*ip) + " [HOST]"@,
    {
        let mut r = ip_string(ip);
        r.append(" [HOST]");
        r
    }
}

// ---------------------------------------------------------------------------
// The chosen node
// ---------------------------------------------------------------------------

/// A label and what stands behind it.
pub open spec fn field(label: Seq<char>, value: Seq<char>) -> Seq<char> {
    text::pad_right(label, 10) + " "@ + value
}

fn push_field(v: &mut Vec<(String, Tone)>, label: &str, value: &str)
    ensures
        inventory::line_views(final(v)@) == inventory::line_views(old(v)@).push((field(label@, value@), Tone::Normal)),
{
    let mut r = padded_right(label, 10);
    r.append(" ");
    r.append(value);
    v.push((r, Tone::Normal));
    assert(inventory::line_views(v@) =~= inventory::line_views(old(v)@).push((field(label@, value@), Tone::Normal)));
}

/// The name of the chosen address.
pub open spec fn chosen_name(h: HostsView, ip: IpAddr) -> Seq<char> {
    let known = geoip::or_text(names::at(h.dns_cache, ip), "--"@);
    let name = if (known == "--"@ || known == RESOLVING@) && net::private_ip(ip)
        && h.active.dom().contains(ip) {
        let own = hostname::cleaned(h.active[ip].hostname);
        if scan::no_name(own) {
            net::ip_text(ip)
        } else {
            own
        }
    } else {
        known
    };
    hostname::cleaned(name)
}

/// The packets between an address and others, over the first `n` pairs.
pub open spec fn packets_of(
    items: Seq<((IpAddr, IpAddr), u64)>,
    ip: IpAddr,
    n: int,
) -> nat
    decreases n,
{
    if n <= 0 || n > items.len() {
        0
    } else {
        packets_of(items, ip, n - 1) + (if items[n - 1].0.0 == ip {
            items[n - 1].1 as nat
        } else {
            0
        }) + (if items[n - 1].0.1 == ip {
            items[n - 1].1 as nat
        } else {
            0
        })
    }
}

/// The longest time that is told since the last packet, in nanoseconds.
pub const LONGEST: u64 = 999_999_000_000_000;

/// How long ago the last packet of an address was, over the first `n` edges.
pub open spec fn last_contact(
    items: Seq<((IpAddr, IpAddr), u64)>,
    ip: IpAddr,
    now: u64,
    n: int,
) -> Option<u64>
    decreases n,
{
    if n <= 0 || n > items.len() {
        None
    } else {
        let before = last_contact(items, ip, now, n - 1);
        if is_end(items[n - 1].0, ip) {
            let least = match before {
                Some(b) => b,
                None => LONGEST,
            };
            Some(
                if formatting::since(now, items[n - 1].1) < least {
                    formatting::since(now, items[n - 1].1)
                } else {
                    least
                },
            )
        } else {
            before
        }
    }
}

/// How long ago the first packet of an address was, over the first `n` edges.
pub open spec fn first_contact(
    items: Seq<((IpAddr, IpAddr), u64)>,
    ip: IpAddr,
    now: u64,
    n: int,
) -> u64
    decreases n,
{
    if n <= 0 || n > items.len() {
        0
    } else {
        let before = first_contact(items, ip, now, n - 1);
        if is_end(items[n - 1].0, ip) && formatting::since(now, items[n - 1].1) > before {
            formatting::since(now, items[n - 1].1)
        } else {
            before
        }
    }
}

/// The first lines on the chosen address. `seconds` tells how long ago the last
/// packet was, where there was one.
pub open spec fn basic_lines(
    s: AppState,
    ip: IpAddr,
    now: u64,
    packets: u64,
    seconds: Option<Seq<char>>,
) -> Seq<(Seq<char>, Tone)> {
    let h = s.hosts();
    let place = names::at(h.places, ip);
    let details = names::at(s.flows@.node_last_seen_details, ip);
    let edges = s.flows.edge_first_seen.items();
    seq![
        (chosen_name(h, ip), Tone::Info),
        (net::ip_text(ip), Tone::Faint),
        (""@, Tone::Normal),
        (
            field(
                "Country:"@,
                match place {
                    Some(g) => g.country_code,
                    None => "--"@,
                },
            ),
            Tone::Normal,
        ),
        (
            field(
                "Org:"@,
                match place {
                    Some(g) => g.org,
                    None => "--"@,
                },
            ),
            Tone::Normal,
        ),
        (field("Packets:"@, formatting::with_commas(packets as nat)), Tone::Normal),
        (field("Bytes:"@, formatting::bytes_text(traffic::count(s.flows@.dest_bytes, ip))), Tone::Normal),
        (
            field(
                "Protocol:"@,
                match details {
                    Some(d) => d.0,
                    None => "--"@,
                },
            ),
            Tone::Normal,
        ),
        (
            field(
                "Process:"@,
                match details {
                    Some(d) => d.1,
                    None => "--"@,
                },
            ),
            Tone::Normal,
        ),
        (
            field(
                "First seen:"@,
                match seconds {
                    Some(_) => formatting::duration_text(
                        first_contact(edges, ip, now, edges.len() as int) / SECOND,
                    ) + " ago"@,
                    None => "--"@,
                },
            ),
            Tone::Normal,
        ),
        (
            field(
                "Last seen:"@,
                match seconds {
                    Some(t) => t + "s ago"@,
                    None => "--"@,
                },
            ),
            Tone::Normal,
        ),
    ]
}

/// Properties of a device and the labels under which they are shown.
pub const SHOWN_PROPERTIES: [(&'static str, &'static str); 4] = [
    ("friendly_name", "Name:"),
    ("manufacturer", "Mfr:"),
    ("firmware", "Firmware:"),
    ("os_version", "OS:"),
];

/// With a property of a device, where it has one.
pub open spec fn with_field(
    lines: Seq<(Seq<char>, Tone)>,
    value: Option<Seq<char>>,
    label: Seq<char>,
) -> Seq<(Seq<char>, Tone)> {
    match value {
        Some(v) => lines.push((field(label, v), Tone::Normal)),
        None => lines,
    }
}

/// With the first `n` of the properties that are shown.
pub open spec fn with_fields(
    lines: Seq<(Seq<char>, Tone)>,
    d: DetailsView,
    n: int,
) -> Seq<(Seq<char>, Tone)>
    decreases n,
{
    if n <= 0 || n > SHOWN_PROPERTIES@.len() {
        lines
    } else {
        with_field(
            with_fields(lines, d, n - 1),
            d.property(SHOWN_PROPERTIES@[n - 1].0@),
            SHOWN_PROPERTIES@[n - 1].1@,
        )
    }
}

/// With what a device told of itself.
pub open spec fn with_device(lines: Seq<(Seq<char>, Tone)>, d: Option<DetailsView>) -> Seq<
    (Seq<char>, Tone),
> {
    match d {
        None => lines,
        Some(m) => {
            let headed = lines.push(
                ("\u{2500}\u{2500} Device Info \u{2500}\u{2500}"@, Tone::Heading),
            );
            let model = match m.property("model"@) {
                Some(v) => Some(v),
                None => m.property("model_name"@),
            };
            let named = with_fields(
                with_field(headed, model, "Model:"@),
                m,
                SHOWN_PROPERTIES@.len() as int,
            );
            let served = match m.property("services"@) {
                Some(v) => named.push((field("Services:"@, formatting::truncated(v, 24)), Tone::Normal)),
                None => named,
            };
            with_field(served, m.property("serial"@), "Serial:"@)
        },
    }
}

/// With what the encrypted connections of an address tell.
pub open spec fn with_tls(lines: Seq<(Seq<char>, Tone)>, t: Option<(Seq<char>, u32)>) -> Seq<
    (Seq<char>, Tone),
> {
    match t {
        None => lines,
        Some((print, n)) => lines.push(
            ("\u{2500}\u{2500} TLS Profile \u{2500}\u{2500}"@, Tone::Heading),
        ).push((field("JA4:"@, formatting::truncated(print, 36)), Tone::Normal)).push(
            (field("Seen:"@, text::dec(n as nat) + " samples"@), Tone::Normal),
        ),
    }
}

/// With what the requests of an address for an address tell.
pub open spec fn with_dhcp(lines: Seq<(Seq<char>, Tone)>, print: Option<Seq<char>>) -> Seq<
    (Seq<char>, Tone),
> {
    match print {
        None => lines,
        Some(p) => {
            let listed = lines.push(
                ("\u{2500}\u{2500} DHCP Profile \u{2500}\u{2500}"@, Tone::Heading),
            ).push((field("PRL:"@, formatting::truncated(p, 36)), Tone::Normal));
            match dhcp::dhcp_class(p) {
                Some(c) => listed.push((field("OS Match:"@, c.1), Tone::Normal)),
                None => listed,
            }
        },
    }
}

/// The options that an address asks for, overheard or else answered to a probe.
pub open spec fn dhcp_print(h: HostsView, ip: IpAddr) -> Option<Seq<char>> {
    match names::at(h.dhcp, ip) {
        Some(p) => Some(p),
        None => match names::at(h.details, ip) {
            Some(d) => d.property("dhcp_fingerprint"@),
            None => None,
        },
    }
}

/// All lines on the chosen address.
pub open spec fn node_lines(
    s: AppState,
    ip: IpAddr,
    now: u64,
    packets: u64,
    seconds: Option<Seq<char>>,
) -> Seq<(Seq<char>, Tone)> {
    let h = s.hosts();
    with_field(
        with_dhcp(
            with_tls(
                with_device(basic_lines(s, ip, now, packets, seconds), names::at(h.details, ip)),
                names::at(s.names@.tls_fingerprints, ip),
            ),
            dhcp_print(h, ip),
        ),
        hosts::kind_of(names::at(h.profiles, ip)),
        "Behavior:"@,
    )
}

fn push_value(v: &mut Vec<(String, Tone)>, value: Option<&String>, label: &str)
    ensures
        inventory::line_views(final(v)@) == with_field(inventory::line_views(old(v)@), fingerprint::ref_text(value), label@),
{
    match value {
        Some(s) => push_field(v, label, s.as_str()),
        None => {},
    }
}

fn push_device(v: &mut Vec<(String, Tone)>, d: Option<&DeviceDetails>)
    ensures
        inventory::line_views(final(v)@) == with_device(inventory::line_views(old(v)@), category::details_view(d)),
{
    match d {
        None => {},
        Some(m) => {
            push_line(v, "\u{2500}\u{2500} Device Info \u{2500}\u{2500}", Tone::Heading);
            match m.get("model") {
                Some(x) => push_field(v, "Model:", x.as_str()),
                None => push_value(v, m.get("model_name"), "Model:"),
            }
            let ghost start = inventory::line_views(v@);
            let n: usize = SHOWN_PROPERTIES.len();
            for i in 0..n
                invariant
                    n == SHOWN_PROPERTIES@.len(),
                    inventory::line_views(v@) == with_fields(start, m@, i as int),
            {
                let entry = SHOWN_PROPERTIES[i];
                push_value(v, m.get(entry.0), entry.1);
            }
            match m.get("services") {
                Some(x) => push_field(v, "Services:", truncate_str(x.as_str(), 24).as_str()),
                None => {},
            }
            push_value(v, m.get("serial"), "Serial:");
        },
    }
}

impl AppState {
    fn write_chosen_name(&self, ip: &IpAddr) -> (r: String)
        ensures
            r@ == chosen_name(self.hosts(), *ip),
    {
        let known = match self.names.dns_cache.get(ip) {
            Some(n) => n.dup(),
            None => "--".to_owned(),
        };
        if (same(known.as_str(), "--") || same(known.as_str(), RESOLVING)) && is_private_ip(ip) {
            match self.devices.active_discovery.get(ip) {
                Some(d) => {
                    let own = clean_hostname(d.hostname.as_str());
                    let name = if is_no_name(own.as_str()) {
                        ip_string(ip)
                    } else {
                        own
                    };
                    return clean_hostname(name.as_str());
                },
                None => {},
            }
        }
        clean_hostname(known.as_str())
    }

    /// The packets between an address and others, if they can be counted.
    pub fn node_packets(&self, ip: &IpAddr) -> (r: Option<u64>)
        ensures
            ({
                let items = self.flows.pair_packet_counts.items();
                let sum = packets_of(items, *ip, items.len() as int);
                match r {
                    Some(n) => n == sum,
                    None => sum > u64::MAX,
                }
            }),
    {
        let t = &self.flows.pair_packet_counts;
        let n: usize = t.len();
        let ghost items = t.items();
        let mut sum: u64 = 0;
        for i in 0..n
            invariant
                n == items.len(),
                t == &self.flows.pair_packet_counts,
                items == t.items(),
                sum == packets_of(items, *ip, i as int),
        {
            let (e, c) = t.entry(i);
            assert(items[i as int] == (e@, c@));
            let a: u64 = if e.0 == *ip {
                *c
            } else {
                0
            };
            let b: u64 = if e.1 == *ip {
                *c
            } else {
                0
            };
            if a > u64::MAX - sum || b > u64::MAX - sum - a {
                proof {
                    lemma_packets_grow(items, *ip, i + 1, n as int);
                }
                return None;
            }
            sum = sum + a + b;
        }
        Some(sum)
    }

    /// How long ago the last packet of an address was, in nanoseconds.
    pub fn last_packet(&self, ip: &IpAddr, now: u64) -> (r: Option<u64>)
        ensures
            r == last_contact(
                self.flows.edge_last_seen.items(),
                *ip,
                now,
                self.flows.edge_last_seen.items().len() as int,
            ),
    {
        let t = &self.flows.edge_last_seen;
        let n: usize = t.len();
        let ghost items = t.items();
        let mut least: Option<u64> = None;
        for i in 0..n
            invariant
                n == items.len(),
                t == &self.flows.edge_last_seen,
                items == t.items(),
                least == last_contact(items, *ip, now, i as int),
        {
            let (e, then) = t.entry(i);
            assert(items[i as int] == (e@, then@));
            if e.0 == *ip || e.1 == *ip {
                let before: u64 = match least {
                    Some(b) => b,
                    None => LONGEST,
                };
                let past: u64 = now.saturating_sub(*then);
                least = Some(if past < before {
                    past
                } else {
                    before
                });
            }
        }
        least
    }

    fn first_packet(&self, ip: &IpAddr, now: u64) -> (r: u64)
        ensures
            r == first_contact(
                self.flows.edge_first_seen.items(),
                *ip,
                now,
                self.flows.edge_first_seen.items().len() as int,
            ),
    {
        let t = &self.flows.edge_first_seen;
        let n: usize = t.len();
        let ghost items = t.items();
        let mut most: u64 = 0;
        for i in 0..n
            invariant
                n == items.len(),
                t == &self.flows.edge_first_seen,
                items == t.items(),
                most == first_contact(items, *ip, now, i as int),
        {
            let (e, then) = t.entry(i);
            assert(items[i as int] == (e@, then@));
            if e.0 == *ip || e.1 == *ip {
                let past: u64 = now.saturating_sub(*then);
                if past > most {
                    most = past;
                }
            }
        }
        most
    }

    fn write_basic(
        &self,
        ip: &IpAddr,
        now: u64,
        packets: u64,
        seconds: Option<&str>,
    ) -> (r: Vec<(String, Tone)>)
        ensures
            inventory::line_views(r@) == basic_lines(*self, *ip, now, packets, fingerprint::ref_str(seconds)),
    {
        let mut v: Vec<(String, Tone)> = Vec::new();
        assert(inventory::line_views(v@) =~= Seq::<(Seq<char>, Tone)>::empty());
        push_line(&mut v, self.write_chosen_name(ip).as_str(), Tone::Info);
        push_line(&mut v, ip_string(ip).as_str(), Tone::Faint);
        push_line(&mut v, "", Tone::Normal);
        match self.names.geo_cache.get(ip) {
            Some(g) => {
                push_field(&mut v, "Country:", g.country_code.as_str());
                push_field(&mut v, "Org:", g.org.as_str());
            },
            None => {
                push_field(&mut v, "Country:", "--");
                push_field(&mut v, "Org:", "--");
            },
        }
        push_field(&mut v, "Packets:", format_with_commas(packets).as_str());
        push_field(
            &mut v,
            "Bytes:",
            format_bytes(count_at(&self.flows.dest_bytes, ip)).as_str(),
        );
        match self.flows.node_last_seen_details.get(ip) {
            Some(d) => {
                push_field(&mut v, "Protocol:", d.0.as_str());
                push_field(&mut v, "Process:", d.1.as_str());
            },
            None => {
                push_field(&mut v, "Protocol:", "--");
                push_field(&mut v, "Process:", "--");
            },
        }
        match seconds {
            Some(t) => {
                let mut first = format_duration(self.first_packet(ip, now) / SECOND);
                first.append(" ago");
                push_field(&mut v, "First seen:", first.as_str());
                let mut last = t.to_owned();
                last.append("s ago");
                push_field(&mut v, "Last seen:", last.as_str());
            },
            None => {
                push_field(&mut v, "First seen:", "--");
                push_field(&mut v, "Last seen:", "--");
            },
        }
        assert(inventory::line_views(v@) =~= basic_lines(*self, *ip, now, packets, fingerprint::ref_str(seconds)));
        v
    }

    /// What is told of an address, given how many packets went between it and
    /// others, and how many seconds ago the last was, as text.
    pub fn node_detail(
        &self,
        ip: &IpAddr,
        now: u64,
        packets: u64,
        seconds: Option<&str>,
    ) -> (r: Vec<(String, Tone)>)
        ensures
            inventory::line_views(r@) == node_lines(*self, *ip, now, packets, fingerprint::ref_str(seconds)),
    {
        let mut v = self.write_basic(ip, now, packets, seconds);
        push_device(&mut v, self.devices.device_metadata.get(ip));
        match self.names.tls_fingerprints.get(ip) {
            Some(t) => {
                push_line(&mut v, "\u{2500}\u{2500} TLS Profile \u{2500}\u{2500}", Tone::Heading);
                push_field(&mut v, "JA4:", truncate_str(t.0.as_str(), 36).as_str());
                let mut seen = dec_text(t.1 as u64);
                seen.append(" samples");
                push_field(&mut v, "Seen:", seen.as_str());
            },
            None => {},
        }
        let print = match self.names.dhcp_fingerprints.get(ip) {
            Some(p) => Some(p.dup()),
            None => match self.devices.device_metadata.get(ip) {
                Some(d) => match d.get("dhcp_fingerprint") {
                    Some(p) => Some(p.dup()),
                    None => None,
                },
                None => None,
            },
        };
        match print {
            Some(p) => {
                push_line(&mut v, "\u{2500}\u{2500} DHCP Profile \u{2500}\u{2500}", Tone::Heading);
                push_field(&mut v, "PRL:", truncate_str(p.as_str(), 36).as_str());
                match classify_dhcp(p.as_str()) {
                    Some(c) => push_field(&mut v, "OS Match:", c.1),
                    None => {},
                }
            },
            None => {},
        }
        match self.traffic_profiles.get(ip) {
            Some(p) => match classify_device_type(p) {
                Some(k) => push_field(&mut v, "Behavior:", k),
                None => {},
            },
            None => {},
        }
        v
    }
}

proof fn lemma_packets_grow(items: Seq<((IpAddr, IpAddr), u64)>, ip: IpAddr, i: int, n: int)
    requires
        0 <= i <= n <= items.len(),
    ensures
        packets_of(items, ip, i) <= packets_of(items, ip, n),
    decreases n - i,
{
    if i < n {
        lemma_packets_grow(items, ip, i, n - 1);
    }
}

/// Columns that the details of a node take.
pub const DETAIL_WIDTH: u16 = 38;

/// Where the details of a node stand in an area: at its right, over as many
/// rows as they need and it has. What comes back is the left edge, the width
/// and the height.
pub fn detail_area(x: u16, width: u16, height: u16, lines: usize) -> (r: (u16, u16, u16))
    requires
        lines <= 65533,
    ensures
        r.0 == (if x + order::above(width as int, DETAIL_WIDTH as int) > u16::MAX {
            u16::MAX as int
        } else {
            x + order::above(width as int, DETAIL_WIDTH as int)
        }),
        r.1 == order::lesser(DETAIL_WIDTH as int, width as int),
        r.2 == order::lesser(lines + 2, height as int),
{
    let need: u16 = lines as u16 + 2;
    (
        x.saturating_add(width.saturating_sub(DETAIL_WIDTH)),
        if DETAIL_WIDTH < width {
            DETAIL_WIDTH
        } else {
            width
        },
        if need < height {
            need
        } else {
            height
        },
    )
}

// ---------------------------------------------------------------------------
// How a chosen address reads
// ---------------------------------------------------------------------------

/// An address is active for one and a half seconds after a packet from or to
/// it, and is shown by the first of these that holds: alerted, active, local.
pub proof fn law_nodes_shown(
    edges: Map<(IpAddr, IpAddr), u64>,
    a: IpAddr,
    b: IpAddr,
    now: u64,
    active: bool,
    local: bool,
)
    ensures
        edges.dom().contains((a, b)) && edges[(a, b)] <= now < edges[(a, b)] + 1_500_000_000
            ==> is_active(edges, a, now) && is_active(edges, b, now),
        (forall|e: (IpAddr, IpAddr)| #[trigger]
            edges.dom().contains(e) ==> e.0 != a && e.1 != a || now >= edges[e] + 1_500_000_000)
            ==> !is_active(edges, a, now),
        node_tone(true, active, local) == Tone::Danger,
        node_tone(false, true, local) == Tone::Normal,
        node_tone(false, false, true) == Tone::Local,
        node_tone(false, false, false) == Tone::Warning,
        label_tone(true, active, local) == Tone::Danger,
        label_tone(false, true, local) == Tone::Normal,
        label_tone(false, false, true) == Tone::Local,
        label_tone(false, false, false) == Tone::Muted,
        node_sign(true, false) == "\u{25c9}"@,
        node_sign(false, false) == "\u{25cf}"@,
        node_sign(active, true) == "\u{25ba}"@ + node_sign(active, false) + "\u{25c4}"@,
{
    if edges.dom().contains((a, b)) {
        assert(is_end((a, b), a));
        assert(is_end((a, b), b));
    }
}

/// Every packet between two addresses counts for both of them.
pub proof fn law_packets_of_address(
    items: Seq<((IpAddr, IpAddr), u64)>,
    a: IpAddr,
    b: IpAddr,
    packets: u64,
    ip: IpAddr,
)
    ensures
        ({
            let n = items.len() as int;
            let more = items.push(((a, b), packets));
            let before = packets_of(items, ip, n);
            let after = packets_of(more, ip, n + 1);
            &&& ip != a && ip != b ==> after == before
            &&& ip == a && ip != b ==> after == before + packets
            &&& ip != a && ip == b ==> after == before + packets
            &&& ip == a && ip == b ==> after == before + packets + packets
            &&& packets_of(Seq::empty(), ip, 0) == 0
        }),
{
    let n = items.len() as int;
    lemma_packets_same(items, items.push(((a, b), packets)), ip, n);
}

proof fn lemma_packets_same(
    items: Seq<((IpAddr, IpAddr), u64)>,
    more: Seq<((IpAddr, IpAddr), u64)>,
    ip: IpAddr,
    n: int,
)
    requires
        0 <= n <= items.len() <= more.len(),
        forall|i: int| 0 <= i < n ==> #[trigger] items[i] == more[i],
    ensures
        packets_of(items, ip, n) == packets_of(more, ip, n),
    decreases n,
{
    if n > 0 {
        lemma_packets_same(items, more, ip, n - 1);
        assert(items[n - 1] == more[n - 1]);
    }
}

/// The last contact of an address is the shortest of the times since a packet
/// from or to it, if there was any, and its first contact the longest.
pub proof fn law_contacts_of_address(
    items: Seq<((IpAddr, IpAddr), u64)>,
    ip: IpAddr,
    now: u64,
    n: int,
)
    requires
        0 <= n <= items.len(),
        forall|i: int| 0 <= i < n ==> (#[trigger] items[i]).1 <= now < items[i].1 + LONGEST,
    ensures
        (forall|i: int| 0 <= i < n ==> (#[trigger] items[i]).0.0 != ip && items[i].0.1 != ip)
            ==> last_contact(items, ip, now, n) is None && first_contact(items, ip, now, n) == 0,
        forall|i: int|
            0 <= i < n && ((#[trigger] items[i]).0.0 == ip || items[i].0.1 == ip) ==> {
                &&& last_contact(items, ip, now, n) is Some
                &&& last_contact(items, ip, now, n)->0 <= now - items[i].1
                &&& first_contact(items, ip, now, n) >= now - items[i].1
            },
        last_contact(items, ip, now, n) is Some ==> exists|i: int|
            0 <= i < n && ((#[trigger] items[i]).0.0 == ip || items[i].0.1 == ip) && now - items[i].1
                == last_contact(items, ip, now, n)->0,
        first_contact(items, ip, now, n) > 0 ==> exists|i: int|
            0 <= i < n && ((#[trigger] items[i]).0.0 == ip || items[i].0.1 == ip) && now - items[i].1
                == first_contact(items, ip, now, n),
    decreases n,
{
    if n > 0 {
        law_contacts_of_address(items, ip, now, n - 1);
        let e = items[n - 1];
        if last_contact(items, ip, now, n) is Some {
            if is_end(e.0, ip) && now - e.1 == last_contact(items, ip, now, n)->0 {
                assert(items[n - 1].0.0 == ip || items[n - 1].0.1 == ip);
            } else {
                assert(last_contact(items, ip, now, n - 1) == last_contact(items, ip, now, n));
                let i = choose|i: int|
                    0 <= i < n - 1 && ((#[trigger] items[i]).0.0 == ip || items[i].0.1 == ip) && now
                        - items[i].1 == last_contact(items, ip, now, n - 1)->0;
                assert(items[i].0.0 == ip || items[i].0.1 == ip);
            }
        }
        if first_contact(items, ip, now, n) > 0 {
            if is_end(e.0, ip) && now - e.1 == first_contact(items, ip, now, n) {
                assert(items[n - 1].0.0 == ip || items[n - 1].0.1 == ip);
            } else {
                assert(first_contact(items, ip, now, n - 1) == first_contact(items, ip, now, n));
                let i = choose|i: int|
                    0 <= i < n - 1 && ((#[trigger] items[i]).0.0 == ip || items[i].0.1 == ip) && now
                        - items[i].1 == first_contact(items, ip, now, n - 1);
                assert(items[i].0.0 == ip || items[i].0.1 == ip);
            }
        }
    }
}

/// The first lines about an address tell its country and organisation, what
/// was counted of it, and the protocol and program it was last seen with.
#[verifier::rlimit(40)]
pub proof fn law_address_lines(
    s: AppState,
    ip: IpAddr,
    now: u64,
    packets: u64,
    seconds: Option<Seq<char>>,
)
    ensures
        ({
            let lines = node_lines(s, ip, now, packets, seconds);
            let places = s.names@.geo_cache;
            let seen = s.flows@.node_last_seen_details;
            let sent = s.flows@.dest_bytes;
            let country = if places.dom().contains(ip) { places[ip].country_code } else { "--"@ };
            let org = if places.dom().contains(ip) { places[ip].org } else { "--"@ };
            let bytes = if sent.dom().contains(ip) { sent[ip] } else { 0 };
            let protocol = if seen.dom().contains(ip) { seen[ip].0 } else { "--"@ };
            let program = if seen.dom().contains(ip) { seen[ip].1 } else { "--"@ };
            let last = if seconds is Some { seconds->0 + "s ago"@ } else { "--"@ };
            &&& lines.len() >= 11
            &&& lines[1].0 == net::ip_text(ip)
            &&& lines[3].0 == text::pad_right("Country:"@, 10) + " "@ + country
            &&& lines[4].0 == text::pad_right("Org:"@, 10) + " "@ + org
            &&& lines[5].0 == text::pad_right("Packets:"@, 10) + " "@ + formatting::with_commas(
                packets as nat,
            )
            &&& lines[6].0 == text::pad_right("Bytes:"@, 10) + " "@ + formatting::bytes_text(bytes)
            &&& lines[7].0 == text::pad_right("Protocol:"@, 10) + " "@ + protocol
            &&& lines[8].0 == text::pad_right("Process:"@, 10) + " "@ + program
            &&& lines[10].0 == text::pad_right("Last seen:"@, 10) + " "@ + last
        }),
{
    let h = s.hosts();
    let basic = basic_lines(s, ip, now, packets, seconds);
    let device = with_device(basic, names::at(h.details, ip));
    lemma_device_appends(basic, names::at(h.details, ip));
    let tls = with_tls(device, names::at(s.names@.tls_fingerprints, ip));
    assert(basic.is_prefix_of(tls));
    let dhcp = with_dhcp(tls, dhcp_print(h, ip));
    assert(basic.is_prefix_of(dhcp));
    let lines = node_lines(s, ip, now, packets, seconds);
    assert(basic.is_prefix_of(lines));
    assert(lines[1] == basic[1] && lines[3] == basic[3] && lines[4] == basic[4] && lines[5]
        == basic[5] && lines[6] == basic[6] && lines[7] == basic[7] && lines[8] == basic[8]
        && lines[10] == basic[10]);
}

proof fn lemma_fields_append(lines: Seq<(Seq<char>, Tone)>, d: DetailsView, n: int)
    ensures
        lines.is_prefix_of(with_fields(lines, d, n)),
    decreases n,
{
    if 0 < n <= SHOWN_PROPERTIES@.len() {
        lemma_fields_append(lines, d, n - 1);
    }
}

proof fn lemma_device_appends(lines: Seq<(Seq<char>, Tone)>, d: Option<DetailsView>)
    ensures
        lines.is_prefix_of(with_device(lines, d)),
{
    match d {
        None => {},
        Some(m) => {
            let headed = lines.push(
                ("\u{2500}\u{2500} Device Info \u{2500}\u{2500}"@, Tone::Heading),
            );
            let model = match m.property("model"@) {
                Some(v) => Some(v),
                None => m.property("model_name"@),
            };
            let first = with_field(headed, model, "Model:"@);
            assert(lines.is_prefix_of(first));
            lemma_fields_append(first, m, SHOWN_PROPERTIES@.len() as int);
            assert(lines.is_prefix_of(with_fields(first, m, SHOWN_PROPERTIES@.len() as int)));
        },
    }
}

} // verus!
