//! What the panels say: the feed of packets, the connections, the alerts, the
//! statistics and the footer.

use std::collections::VecDeque;
use vstd::prelude::*;
use vstd::string::*;

use crate::alerts;
use crate::alerts::{Alert, AlertFilter, AlertLog, AlertTier, AlertView, LogView};
use crate::device::InfoView;
use crate::flows::{Conn, ConnKey, ConnView, Flows};
use crate::formatting;
use crate::formatting::{
    filter_label, format_bytes, format_duration, format_endpoint, format_endpoint_labeled,
    format_uptime, format_with_commas,
};
use crate::geoip;
use crate::geoip::{GeoView, format_geo_tag, is_city_readable};
use crate::hostname::DASH;
use crate::hosts::HostsView;
use crate::net;
use crate::net::{IpAddr, ip_string, is_private_ip, octets};
use crate::order;
use crate::order::{Window, order_by, order_down, window_of};
use crate::packet::{CapturedPacket, PacketView, ProtocolFilter};
use crate::state;
use crate::state::{AppState, DiscoveryFilter, Feeds, FeedsView, InputMode, Panel, Ui};
use crate::text;
use crate::text::{dec_text, padded_right, same};
use crate::traffic::{Counters, CountersView, SECOND};

verus! {

/// How a line is coloured.
#[derive(Clone, Copy, PartialEq, Eq, Structural, Debug)]
pub enum Tone {
    /// White.
    Normal,
    /// Dark grey.
    Faint,
    /// Cyan.
    Info,
    /// Yellow.
    Warning,
    /// Red.
    Danger,
    /// Green.
    Local,
    /// Grey.
    Muted,
    /// The colour of headings.
    Heading,
}

// ---------------------------------------------------------------------------
// The prefix that devices share
// ---------------------------------------------------------------------------

/// An address of IPv4 in a private network.
pub open spec fn private_v4(ip: IpAddr) -> Option<u32> {
    match ip {
        IpAddr::V4(n) if net::private_ip(ip) => Some(n),
        _ => None,
    }
}

/// The addresses of IPv4 in private networks that devices have.
pub open spec fn private_devices(items: Seq<(IpAddr, InfoView)>) -> Seq<u32> {
    items.filter_map(|e: (IpAddr, InfoView)| private_v4(e.0))
}

/// Two addresses have their first `k` bytes in common.
pub open spec fn agree(a: u32, b: u32, k: int) -> bool {
    forall|j: int| 0 <= j < k ==> #[trigger] net::octet(a, j) == net::octet(b, j)
}

/// All addresses have their first `k` bytes in common.
pub open spec fn all_agree(list: Seq<u32>, k: int) -> bool {
    forall|i: int| 0 <= i < list.len() ==> agree(#[trigger] list[i], list[0], k)
}

/// How many bytes all addresses have in common.
pub open spec fn shared_bytes(list: Seq<u32>) -> int {
    if list.len() == 0 {
        0
    } else if all_agree(list, 4) {
        4
    } else if all_agree(list, 3) {
        3
    } else if all_agree(list, 2) {
        2
    } else if all_agree(list, 1) {
        1
    } else {
        0
    }
}

/// The text of the first `k` bytes of an address.
pub open spec fn leading_text(a: u32, k: int) -> Seq<char> {
    if k == 1 {
        text::dec(net::octet(a, 0) as nat) + "."@
    } else if k == 2 {
        text::dec(net::octet(a, 0) as nat) + "."@ + text::dec(net::octet(a, 1) as nat) + "."@
    } else if k == 3 {
        text::dec(net::octet(a, 0) as nat) + "."@ + text::dec(net::octet(a, 1) as nat) + "."@ + text::dec(
            net::octet(a, 2) as nat,
        ) + "."@
    } else {
        Seq::empty()
    }
}

/// The prefix that addresses share; none where they share nothing, or all.
pub open spec fn common_prefix(list: Seq<u32>) -> Seq<char> {
    if list.len() == 0 {
        Seq::empty()
    } else {
        leading_text(list[0], shared_bytes(list))
    }
}

fn lead(a: u32, k: usize) -> (r: String)
    ensures
        r@ == leading_text(a, k as int),
{
    let o = octets(a);
    let mut r = String::new();
    if k == 0 || k > 3 {
        return r;
    }
    r = dec_text(o[0] as u64);
    r.append(".");
    if k == 1 {
        return r;
    }
    r.append(dec_text(o[1] as u64).as_str());
    r.append(".");
    if k == 2 {
        return r;
    }
    r.append(dec_text(o[2] as u64).as_str());
    r.append(".");
    r
}

fn agreeing(a: u32, b: u32, most: usize) -> (r: usize)
    requires
        most <= 4,
    ensures
        r <= most,
        agree(a, b, r as int),
        r < most ==> net::octet(a, r as int) != net::octet(b, r as int),
{
    let x = octets(a);
    let y = octets(b);
    let mut i: usize = 0;
    while i < most
        invariant
            i <= most <= 4,
            x@ == seq![net::octet(a, 0), net::octet(a, 1), net::octet(a, 2), net::octet(a, 3)],
            y@ == seq![net::octet(b, 0), net::octet(b, 1), net::octet(b, 2), net::octet(b, 3)],
            agree(a, b, i as int),
        decreases most - i,
    {
        assert(x@[i as int] == net::octet(a, i as int));
        assert(y@[i as int] == net::octet(b, i as int));
        if x[i] != y[i] {
            return i;
        }
        i = i + 1;
    }
    i
}

impl AppState {
    /// The prefix that the addresses of all devices in private networks share,
    /// where addresses are shown short.
    pub fn get_common_prefix_v4(&self) -> (r: String)
        ensures
            r@ == (if self.ui.ip_compressed {
                common_prefix(private_devices(self.devices.active_discovery.items()))
            } else {
                Seq::empty()
            }),
    {
        if !self.ui.ip_compressed {
            return String::new();
        }
        let t = &self.devices.active_discovery;
        let ghost items = t.items();
        let ghost f = |e: (IpAddr, InfoView)| private_v4(e.0);
        let n: usize = t.len();
        let mut first: Option<u32> = None;
        let mut len: usize = 0;
        let ghost mut list: Seq<u32> = Seq::empty();
        assert(list =~= items.take(0).filter_map(f));
        for i in 0..n
            invariant
                n == items.len(),
                t == &self.devices.active_discovery,
                items == t.items(),
                f == (|e: (IpAddr, InfoView)| private_v4(e.0)),
                list == items.take(i as int).filter_map(f),
                len <= 4,
                match first {
                    None => list.len() == 0 && len == 0,
                    Some(a) => list.len() > 0 && a == list[0] && all_agree(list, len as int)
                        && (len < 4 ==> !all_agree(list, len + 1)),
                },
        {
            proof {
                items.lemma_filter_map_take_succ(f, i as int);
            }
            let (ip, d) = t.entry(i);
            assert(items[i as int] == (ip@, d@));
            let ghost before = list;
            assert(before + Seq::<u32>::empty() =~= before);
            match *ip {
                IpAddr::V4(a) => {
                    if is_private_ip(ip) {
                        proof {
                            list = before + seq![a];
                            assert(list.last() == a);
                            assert forall|k: int| 0 <= k < before.len() implies list[k]
                                == before[k] by {}
                        }
                        match first {
                            None => {
                                first = Some(a);
                                len = 4;
                                assert(list =~= seq![a]);
                            },
                            Some(b) => {
                                let now: usize = agreeing(a, b, len);
                                proof {
                                    assert forall|k: int| 0 <= k < list.len() implies agree(
                                        #[trigger] list[k],
                                        list[0],
                                        now as int,
                                    ) by {
                                        if k < before.len() {
                                            assert(agree(before[k], before[0], len as int));
                                        }
                                    }
                                    if now < 4 {
                                        if now < len {
                                            assert(net::octet(a, now as int) != net::octet(b, now as int));
                                            assert(!agree(
                                                list[before.len() as int],
                                                list[0],
                                                now + 1,
                                            ));
                                        } else {
                                            let k = choose|k: int|
                                                0 <= k < before.len() && !agree(
                                                    #[trigger] before[k],
                                                    before[0],
                                                    len + 1,
                                                );
                                            assert(!agree(list[k], list[0], now + 1));
                                        }
                                    }
                                }
                                len = now;
                            },
                        }
                    }
                },
                IpAddr::V6(_) => {},
            }
        }
        assert(items.take(n as int) =~= items);
        proof {
            if list.len() > 0 {
                lemma_shared(list, len as int);
            }
        }
        match first {
            Some(a) => lead(a, len),
            None => String::new(),
        }
    }
}

proof fn lemma_less(list: Seq<u32>, a: int, b: int)
    requires
        a <= b,
        all_agree(list, b),
    ensures
        all_agree(list, a),
{
    assert forall|i: int| 0 <= i < list.len() implies agree(#[trigger] list[i], list[0], a) by {
        assert(agree(list[i], list[0], b));
    }
}

proof fn lemma_shared(list: Seq<u32>, len: int)
    requires
        list.len() > 0,
        0 <= len <= 4,
        all_agree(list, len),
        len < 4 ==> !all_agree(list, len + 1),
    ensures
        shared_bytes(list) == len,
{
    assert forall|k: int| len < k <= 4 implies !all_agree(list, k) by {
        if all_agree(list, k) {
            lemma_less(list, len + 1, k);
        }
    }
    if 1 <= len {
        lemma_less(list, 1, len);
    }
    assert(!(all_agree(list, 4) && len < 4));
    assert(!(all_agree(list, 3) && len < 3));
    assert(!(all_agree(list, 2) && len < 2));
    assert(!(all_agree(list, 1) && len < 1));
}

/// Every address begins with the prefix that all share.
pub proof fn law_prefix_shared(list: Seq<u32>, i: int)
    requires
        0 <= i < list.len(),
    ensures
        common_prefix(list).is_prefix_of(net::v4_text(list[i])),
{
    let k = shared_bytes(list);
    let (a, b) = (list[i], list[0]);
    if 1 <= k <= 3 {
        assert(all_agree(list, k));
        assert(agree(a, b, k));
        assert(net::octet(a, 0) == net::octet(b, 0));
        if k >= 2 {
            assert(net::octet(a, 1) == net::octet(b, 1));
        }
        if k >= 3 {
            assert(net::octet(a, 2) == net::octet(b, 2));
        }
        let p = leading_text(b, k);
        let t = net::v4_text(a);
        assert(t.take(p.len() as int) =~= p);
    } else {
        assert(leading_text(b, k) =~= Seq::<char>::empty());
    }
}

// ---------------------------------------------------------------------------
// The feed
// ---------------------------------------------------------------------------

/// An address is shown under a name of its own.
pub open spec fn labelled_host(h: HostsView, ip: IpAddr) -> bool {
    h.shown_name(ip) != net::ip_text(ip) && h.shown_name(ip) != DASH@
}

/// What stands at an address can be written.
pub open spec fn describable(h: HostsView, ip: IpAddr) -> bool {
    !labelled_host(h, ip) && h.places.dom().contains(ip) ==> geoip::city_readable(h.places[ip])
}

/// An address in a line, with its name, or else its place.
pub open spec fn described_end(h: HostsView, ip: IpAddr, end: Seq<char>) -> Seq<char> {
    if labelled_host(h, ip) {
        end + " ("@ + h.shown_name(ip) + ")"@
    } else if h.places.dom().contains(ip) {
        end + " "@ + geoip::geo_tag(h.places[ip])
    } else {
        end
    }
}

/// The line of a packet, given the time at which it came as text.
pub open spec fn packet_line(
    h: HostsView,
    p: PacketView,
    short: bool,
    prefix: Seq<char>,
    time: Seq<char>,
) -> Seq<char> {
    let src = described_end(h, p.src_ip, formatting::endpoint(p.src_ip, p.src_port, short, prefix));
    let dst = described_end(h, p.dst_ip, formatting::endpoint_labeled(p.dst_ip, p.dst_port, short, prefix));
    let info = geoip::or_text(p.flags, DASH@);
    "["@ + time + "]  "@ + text::pad_right(p.protocol.name(), 4) + " "@ + text::pad_right(src, 21)
        + "  \u{2192}  "@ + text::pad_right(dst, 26) + "  "@ + text::pad_right(info, 14) + " "@ + text::dec(
        p.size as nat,
    ) + "B"@
}

impl AppState {
    fn is_labelled(&self, ip: &IpAddr, name: &str) -> (r: bool)
        requires
            name@ == self.hosts().shown_name(*ip),
        ensures
            r == labelled_host(self.hosts(), *ip),
    {
        let own = ip_string(ip);
        !same(name, own.as_str()) && !same(name, DASH)
    }

    fn is_describable(&self, ip: &IpAddr) -> (r: bool)
        ensures
            r == describable(self.hosts(), *ip),
    {
        let name = self.get_display_hostname(ip);
        if self.is_labelled(ip, name.as_str()) {
            return true;
        }
        match self.names.geo_cache.get(ip) {
            Some(g) => is_city_readable(g),
            None => true,
        }
    }

    fn describe_end(&self, ip: &IpAddr, end: String) -> (r: String)
        requires
            describable(self.hosts(), *ip),
        ensures
            r@ == described_end(self.hosts(), *ip, end@),
    {
        let name = self.get_display_hostname(ip);
        let mut r = end;
        if self.is_labelled(ip, name.as_str()) {
            r.append(" (");
            r.append(name.as_str());
            r.append(")");
            return r;
        }
        match self.names.geo_cache.get(ip) {
            Some(g) => {
                r.append(" ");
                r.append(format_geo_tag(g).as_str());
            },
            None => {},
        }
        r
    }

    /// The line of a packet, given the time at which it came as text.
    pub fn format_packet_line(&self, pkt: &CapturedPacket, prefix: &str, time: &str) -> (r: String)
        requires
            describable(self.hosts(), pkt.src_ip),
            describable(self.hosts(), pkt.dst_ip),
        ensures
            r@ == packet_line(self.hosts(), pkt@, self.ui.ip_compressed, prefix@, time@),
    {
        let short = self.ui.ip_compressed;
        let src = self.describe_end(
            &pkt.src_ip,
            format_endpoint(&pkt.src_ip, pkt.src_port, short, prefix),
        );
        let dst = self.describe_end(
            &pkt.dst_ip,
            format_endpoint_labeled(&pkt.dst_ip, pkt.dst_port, short, prefix),
        );
        let info = match &pkt.flags {
            Some(f) => f.as_str().to_owned(),
            None => DASH.to_owned(),
        };
        let mut r = "[".to_owned();
        r.append(time);
        r.append("]  ");
        r.append(padded_right(pkt.protocol.to_text().as_str(), 4).as_str());
        r.append(" ");
        r.append(padded_right(src.as_str(), 21).as_str());
        r.append("  \u{2192}  ");
        r.append(padded_right(dst.as_str(), 26).as_str());
        r.append("  ");
        r.append(padded_right(info.as_str(), 14).as_str());
        r.append(" ");
        r.append(dec_text(pkt.size as u64).as_str());
        r.append("B");
        r
    }

    /// The line of a packet, where both its ends can be written.
    pub fn try_packet_line(&self, pkt: &CapturedPacket, prefix: &str, time: &str) -> (r: Option<
        String,
    >)
        ensures
            match r {
                Some(s) => describable(self.hosts(), pkt.src_ip) && describable(
                    self.hosts(),
                    pkt.dst_ip,
                ) && s@ == packet_line(
                    self.hosts(),
                    pkt@,
                    self.ui.ip_compressed,
                    prefix@,
                    time@,
                ),
                None => !describable(self.hosts(), pkt.src_ip) || !describable(
                    self.hosts(),
                    pkt.dst_ip,
                ),
            },
    {
        if self.is_describable(&pkt.src_ip) && self.is_describable(&pkt.dst_ip) {
            Some(self.format_packet_line(pkt, prefix, time))
        } else {
            None
        }
    }
}

/// The packets that a filter shows, in the order in which the feeds hold them.
pub open spec fn fed(f: FeedsView, filter: ProtocolFilter) -> Seq<(u64, PacketView)> {
    match filter {
        ProtocolFilter::All => f.feed_tcp + f.feed_udp + f.feed_icmp,
        ProtocolFilter::Tcp => f.feed_tcp,
        ProtocolFilter::Udp => f.feed_udp,
        ProtocolFilter::Icmp => f.feed_icmp,
    }
}

/// The times at which packets came; all the same where they stay as they are.
pub open spec fn feed_keys(f: FeedsView, filter: ProtocolFilter) -> Seq<u64> {
    if filter == ProtocolFilter::All {
        fed(f, filter).map_values(|e: (u64, PacketView)| e.0)
    } else {
        fed(f, filter).map_values(|e: (u64, PacketView)| 0u64)
    }
}

/// The number of packets that are shown: where the feed is scrolled back, one
/// row is kept for a hint.
pub open spec fn feed_shown(w: Window) -> int {
    if w.scrolled {
        order::above(w.shown as int, 1)
    } else {
        w.shown as int
    }
}

fn push_times(v: &mut Vec<u64>, f: &VecDeque<(u64, CapturedPacket)>, keep: bool)
    ensures
        final(v)@ == old(v)@ + state::feed_views(f@).map_values(
            |e: (u64, PacketView)|
                if keep {
                    e.0
                } else {
                    0u64
                },
        ),
{
    let ghost start = v@;
    let ghost all = state::feed_views(f@).map_values(
        |e: (u64, PacketView)|
            if keep {
                e.0
            } else {
                0u64
            },
    );
    let n: usize = f.len();
    assert(v@ =~= start + all.take(0));
    for i in 0..n
        invariant
            n == f@.len(),
            all == state::feed_views(f@).map_values(
                |e: (u64, PacketView)|
                    if keep {
                        e.0
                    } else {
                        0u64
                    },
            ),
            v@ == start + all.take(i as int),
    {
        let t: u64 = f[i].0;
        v.push(if keep {
            t
        } else {
            0
        });
        assert(v@ =~= start + all.take(i + 1));
    }
    assert(all.take(n as int) =~= all);
}

/// The packet at a position.
pub open spec fn packet_among(s: Seq<(u64, PacketView)>, i: usize) -> PacketView {
    s[i as int].1
}

impl Feeds {
    /// The packet at a position among those that a filter shows.
    pub fn packet_at(&self, filter: &ProtocolFilter, i: usize) -> (r: &CapturedPacket)
        requires
            i < fed(self@, *filter).len(),
        ensures
            r@ == packet_among(fed(self@, *filter), i),
    {
        match filter {
            ProtocolFilter::Tcp => &self.feed_tcp[i].1,
            ProtocolFilter::Udp => &self.feed_udp[i].1,
            ProtocolFilter::Icmp => &self.feed_icmp[i].1,
            ProtocolFilter::All => {
                let a: usize = self.feed_tcp.len();
                let b: usize = self.feed_udp.len();
                if i < a {
                    &self.feed_tcp[i].1
                } else if i - a < b {
                    &self.feed_udp[i - a].1
                } else {
                    &self.feed_icmp[i - a - b].1
                }
            },
        }
    }

    fn keys(&self, filter: &ProtocolFilter) -> (r: Vec<u64>)
        ensures
            r@ == feed_keys(self@, *filter),
    {
        let mut v: Vec<u64> = Vec::new();
        match filter {
            ProtocolFilter::Tcp => push_times(&mut v, &self.feed_tcp, false),
            ProtocolFilter::Udp => push_times(&mut v, &self.feed_udp, false),
            ProtocolFilter::Icmp => push_times(&mut v, &self.feed_icmp, false),
            ProtocolFilter::All => {
                push_times(&mut v, &self.feed_tcp, true);
                push_times(&mut v, &self.feed_udp, true);
                push_times(&mut v, &self.feed_icmp, true);
            },
        }
        assert(v@ =~= feed_keys(self@, *filter));
        v
    }

    /// The positions of the packets that are shown in some rows, oldest first,
    /// and whether there are newer ones.
    pub fn visible(&self, filter: &ProtocolFilter, rows: usize) -> (r: (Vec<usize>, bool))
        ensures
            visible_part(
                feed_keys(self@, *filter),
                order::window(
                    fed(self@, *filter).len() as usize,
                    rows,
                    self@.feed_paused_scroll,
                    self@.feed_scroll,
                ),
                r.0@,
            ),
            r.1 == order::window(
                fed(self@, *filter).len() as usize,
                rows,
                self@.feed_paused_scroll,
                self@.feed_scroll,
            ).scrolled,
    {
        let keys = self.keys(filter);
        let order = order_by(&keys);
        let w = window_of(keys.len(), rows, self.feed_paused_scroll, self.feed_scroll);
        let shown: usize = if w.scrolled {
            if w.shown > 1 {
                w.shown - 1
            } else {
                0
            }
        } else {
            w.shown
        };
        let mut r: Vec<usize> = Vec::new();
        let total: usize = order.len();
        for i in 0..shown
            invariant
                total == order@.len(),
                w.skip + shown <= total,
                r@ == order@.subrange(w.skip as int, w.skip + i),
        {
            r.push(order[w.skip + i]);
            assert(r@ =~= order@.subrange(w.skip as int, w.skip + i + 1));
        }
        assert(part_of(order@, w, r@));
        assert(feed_keys(self@, *filter).len() == fed(self@, *filter).len());
        (r, w.scrolled)
    }
}

/// `shown` is the part of an order that a window shows.
pub open spec fn part_of(order: Seq<usize>, w: Window, shown: Seq<usize>) -> bool {
    w.skip + feed_shown(w) <= order.len() && shown == order.subrange(
        w.skip as int,
        w.skip + feed_shown(w),
    )
}

/// `shown` are the positions that a window shows of a list by ascending keys.
pub open spec fn visible_part(keys: Seq<u64>, w: Window, shown: Seq<usize>) -> bool {
    exists|order: Seq<usize>| order::orders(keys, order) && #[trigger] part_of(order, w, shown)
}

/// What is shown where a list is scrolled back.
pub const RESUME_SCROLL: &'static str = "  \u{2193} Press [Space] to resume live scroll";

/// The title of the feed.
pub open spec fn feed_title(ui: Ui) -> Seq<char> {
    " Live Feed ["@ + formatting::filter_name(ui.display_filter) + "]"@ + (if ui.paused {
        " | PAUSED"@
    } else {
        Seq::empty()
    }) + (match ui.capture_error {
        Some(e) => " | ERR: "@ + e@,
        None => Seq::empty(),
    }) + " "@
}

impl Ui {
    /// The title of the feed.
    pub fn feed_title(&self) -> (r: String)
        ensures
            r@ == feed_title(*self),
    {
        let mut r = " Live Feed [".to_owned();
        r.append(filter_label(&self.display_filter));
        r.append("]");
        if self.paused {
            r.append(" | PAUSED");
        }
        match &self.capture_error {
            Some(e) => {
                r.append(" | ERR: ");
                r.append(e.as_str());
            },
            None => {},
        }
        r.append(" ");
        assert(r@ =~= feed_title(*self));
        r
    }
}

// ---------------------------------------------------------------------------
// Connections
// ---------------------------------------------------------------------------

/// The bytes of connections.
pub open spec fn conn_bytes(items: Seq<(ConnKey, ConnView)>) -> Seq<u64> {
    items.map_values(|e: (ConnKey, ConnView)| e.1.bytes)
}

/// `r` are the positions of the `n` connections that carried most, or of all.
pub open spec fn top_connections(items: Seq<(ConnKey, ConnView)>, n: int, r: Seq<usize>) -> bool {
    exists|order: Seq<usize>|
        #![trigger order::orders(order::falling(conn_bytes(items)), order)]
        order::orders(order::falling(conn_bytes(items)), order) && r == order.take(
            order::lesser(n, items.len() as int),
        )
}

impl Flows {
    /// The positions of the connections that carried most, most first; where
    /// two carried the same, the older first.
    pub fn busiest_connections(&self, n: usize) -> (r: Vec<usize>)
        ensures
            top_connections(self.connections.items(), n as int, r@),
            forall|i: int|
                0 <= i < r@.len() ==> (#[trigger] r@[i]) < self.connections.items().len(),
    {
        let t = &self.connections;
        let total: usize = t.len();
        let ghost items = t.items();
        let mut keys: Vec<u64> = Vec::new();
        for i in 0..total
            invariant
                total == items.len(),
                t == &self.connections,
                items == t.items(),
                keys@.len() == i,
                forall|j: int| 0 <= j < i ==> #[trigger] keys@[j] == items[j].1.bytes,
        {
            let (k, c) = t.entry(i);
            assert(items[i as int] == (k@, c@));
            keys.push(c.bytes);
        }
        assert(keys@ =~= conn_bytes(items));
        let order = order_down(&keys);
        let m: usize = if n < total {
            n
        } else {
            total
        };
        let mut r: Vec<usize> = Vec::new();
        for i in 0..m
            invariant
                m <= order@.len(),
                r@ == order@.take(i as int),
        {
            r.push(order[i]);
            assert(r@ =~= order@.take(i + 1));
        }
        assert(order::orders(order::falling(conn_bytes(items)), order@));
        r
    }
}

/// The organisation that stands at the end of a connection.
pub open spec fn conn_org(places: Map<IpAddr, GeoView>, key: ConnKey) -> Seq<char> {
    if places.dom().contains(key.dst) {
        " ["@ + places[key.dst].org + "]"@
    } else if places.dom().contains(key.src) {
        " ["@ + places[key.src].org + "]"@
    } else {
        Seq::empty()
    }
}

/// The program of a connection as it is shown.
pub open spec fn conn_program(key: ConnKey, program: Seq<char>) -> Seq<char> {
    if program == "unknown"@ && !net::private_ip(key.src) && net::private_ip(key.dst) {
        "\u{2190} inbound"@
    } else {
        program
    }
}

/// The line of a connection, given the name of its program.
pub open spec fn conn_line(
    h: HostsView,
    key: ConnKey,
    c: ConnView,
    program: Seq<char>,
) -> Seq<char> {
    " "@ + text::pad_right(h.shown_name(key.src), 15) + " \u{2192} "@ + text::pad_right(
        h.shown_name(key.dst),
        21,
    ) + " \u{2014} "@ + conn_program(key, program) + conn_org(h.places, key) + " \u{2014} "@
        + formatting::with_commas(c.packets as nat) + " pkts, "@ + formatting::bytes_text(c.bytes) + " ("@ + formatting::duration_text(
        c.duration / SECOND,
    ) + ")"@
}

/// An address that sent most packets.
pub open spec fn most_active(sent: Map<IpAddr, u64>, ip: IpAddr) -> bool {
    sent.dom().contains(ip) && forall|other: IpAddr| #[trigger]
        sent.dom().contains(other) ==> sent[other] <= sent[ip]
}

impl AppState {
    /// The line of a connection, given the name of its program.
    pub fn connection_line(&self, key: &ConnKey, conn: &Conn, program: &str) -> (r: String)
        ensures
            r@ == conn_line(self.hosts(), *key, conn@, program@),
    {
        let mut r = " ".to_owned();
        r.append(padded_right(self.get_display_hostname(&key.src).as_str(), 15).as_str());
        r.append(" \u{2192} ");
        r.append(padded_right(self.get_display_hostname(&key.dst).as_str(), 21).as_str());
        r.append(" \u{2014} ");
        if same(program, "unknown") && !is_private_ip(&key.src) && is_private_ip(&key.dst) {
            r.append("\u{2190} inbound");
        } else {
            r.append(program);
        }
        let ghost before = r@;
        match self.names.geo_cache.get(&key.dst) {
            Some(g) => {
                r.append(" [");
                r.append(g.org.as_str());
                r.append("]");
            },
            None => match self.names.geo_cache.get(&key.src) {
                Some(g) => {
                    r.append(" [");
                    r.append(g.org.as_str());
                    r.append("]");
                },
                None => {},
            },
        }
        assert(r@ =~= before + conn_org(self.hosts().places, *key));
        r.append(" \u{2014} ");
        r.append(format_with_commas(conn.packets).as_str());
        r.append(" pkts, ");
        r.append(format_bytes(conn.bytes).as_str());
        r.append(" (");
        r.append(format_duration(conn.duration / SECOND).as_str());
        r.append(")");
        r
    }

    /// An address that sent most packets, as text. Where several did, it is one
    /// of them.
    pub fn most_active_host(&self) -> (r: String)
        ensures
            if self.flows.src_packet_counts.items().len() == 0 {
                r@ == "---"@
            } else {
                exists|ip: IpAddr|
                    #[trigger] most_active(self.flows.src_packet_counts@, ip) && r@ == net::ip_text(ip)
            },
    {
        let t = &self.flows.src_packet_counts;
        let n: usize = t.len();
        let ghost items = t.items();
        if n == 0 {
            return "---".to_owned();
        }
        let mut best: usize = 0;
        for i in 0..n
            invariant
                n == items.len(),
                t == &self.flows.src_packet_counts,
                items == t.items(),
                best < n,
                forall|j: int| 0 <= j < i ==> (#[trigger] items[j]).1 <= items[best as int].1,
        {
            let (_, c) = t.entry(i);
            let (_, m) = t.entry(best);
            if *c >= *m {
                best = i;
            }
        }
        let (ip, c) = t.entry(best);
        proof {
            assert forall|other: IpAddr| #[trigger] t@.dom().contains(other) implies t@[other]
                <= t@[*ip] by {
                let j = choose|j: int| 0 <= j < items.len() && (#[trigger] items[j]).0 == other;
                assert(items[j].1 <= items[best as int].1);
            }
            assert(most_active(t@, *ip));
        }
        ip_string(ip)
    }

    /// The line below the connections.
    pub fn connections_summary(&self, most_active: &str) -> (r: String)
        ensures
            r@ == " "@ + text::dec(self.flows.connections.items().len()) + " active connections  |  "@
                + text::dec(self.flows@.unique_ips.len()) + " unique IPs seen  |  most active: "@
                + most_active@,
    {
        let mut r = " ".to_owned();
        r.append(dec_text(self.flows.connections.len() as u64).as_str());
        r.append(" active connections  |  ");
        r.append(dec_text(self.flows.unique_ips.len() as u64).as_str());
        r.append(" unique IPs seen  |  most active: ");
        r.append(most_active);
        r
    }
}

// ---------------------------------------------------------------------------
// Alerts
// ---------------------------------------------------------------------------

/// The label of a filter for alerts.
pub open spec fn alert_filter_name(f: AlertFilter) -> Seq<char> {
    match f {
        AlertFilter::All => "ALL"@,
        AlertFilter::Suspicious => "SUSPICIOUS"@,
        AlertFilter::Behavioral => "BEHAVIORAL"@,
        AlertFilter::External => "EXTERNAL"@,
        AlertFilter::Noise => "NOISE"@,
    }
}

/// The label of a filter for alerts.
pub fn alert_filter_label(f: &AlertFilter) -> (r: &'static str)
    ensures
        r@ == alert_filter_name(*f),
{
    match f {
        AlertFilter::All => "ALL",
        AlertFilter::Suspicious => "SUSPICIOUS",
        AlertFilter::Behavioral => "BEHAVIORAL",
        AlertFilter::External => "EXTERNAL",
        AlertFilter::Noise => "NOISE",
    }
}

impl LogView {
    /// The number of alerts that a filter counts.
    pub open spec fn total_of(self, f: AlertFilter) -> u64 {
        match f {
            AlertFilter::All => self.total,
            AlertFilter::Suspicious => self.total_suspicious,
            AlertFilter::Behavioral => self.total_behavioral,
            AlertFilter::External => self.total_external,
            AlertFilter::Noise => self.total_noise,
        }
    }

    /// The alerts that a filter shows, in the order in which the log holds them.
    pub open spec fn listed(self, f: AlertFilter) -> Seq<AlertView> {
        match f {
            AlertFilter::All => self.suspicious + self.behavioral + self.external + self.noise,
            AlertFilter::Suspicious => self.suspicious,
            AlertFilter::Behavioral => self.behavioral,
            AlertFilter::External => self.external,
            AlertFilter::Noise => self.noise,
        }
    }
}

/// The times of alerts; all the same where they stay as they are.
pub open spec fn alert_keys(l: LogView, f: AlertFilter) -> Seq<u64> {
    if f == AlertFilter::All {
        l.listed(f).map_values(|a: AlertView| a.timestamp)
    } else {
        l.listed(f).map_values(|a: AlertView| 0u64)
    }
}

pub(crate) fn push_stamps(v: &mut Vec<u64>, alerts: &Vec<Alert>, keep: bool)
    ensures
        final(v)@ == old(v)@ + alerts::alert_views(alerts@).map_values(
            |a: AlertView|
                if keep {
                    a.timestamp
                } else {
                    0u64
                },
        ),
{
    let ghost start = v@;
    let ghost all = alerts::alert_views(alerts@).map_values(
        |a: AlertView|
            if keep {
                a.timestamp
            } else {
                0u64
            },
    );
    let n: usize = alerts.len();
    assert(v@ =~= start + all.take(0));
    for i in 0..n
        invariant
            n == alerts@.len(),
            all == alerts::alert_views(alerts@).map_values(
                |a: AlertView|
                    if keep {
                        a.timestamp
                    } else {
                        0u64
                    },
            ),
            v@ == start + all.take(i as int),
    {
        v.push(if keep {
            alerts[i].timestamp
        } else {
            0
        });
        assert(v@ =~= start + all.take(i + 1));
    }
    assert(all.take(n as int) =~= all);
}

/// `shown` is the part of an order that a window shows, with no row kept.
pub open spec fn whole_part(order: Seq<usize>, w: Window, shown: Seq<usize>) -> bool {
    w.skip + w.shown <= order.len() && shown == order.subrange(w.skip as int, w.skip + w.shown)
}

/// `shown` are the positions that a window shows of a list by ascending keys.
pub open spec fn visible_whole(keys: Seq<u64>, w: Window, shown: Seq<usize>) -> bool {
    exists|order: Seq<usize>| order::orders(keys, order) && #[trigger] whole_part(order, w, shown)
}

/// What is shown in the last row where the alerts are scrolled back.
pub const RESUME_ALERTS: &'static str = "  \u{2193} Press [Space] to resume live updates";

impl AlertLog {
    /// The alert at a position among those that a filter shows.
    pub fn alert_at(&self, f: &AlertFilter, i: usize) -> (r: &Alert)
        requires
            i < self@.listed(*f).len(),
        ensures
            r@ == self@.listed(*f)[i as int],
    {
        match f {
            AlertFilter::Suspicious => &self.suspicious[i],
            AlertFilter::Behavioral => &self.behavioral[i],
            AlertFilter::External => &self.external[i],
            AlertFilter::Noise => &self.noise[i],
            AlertFilter::All => {
                let a: usize = self.suspicious.len();
                let b: usize = self.behavioral.len();
                let c: usize = self.external.len();
                if i < a {
                    &self.suspicious[i]
                } else if i - a < b {
                    &self.behavioral[i - a]
                } else if i - a - b < c {
                    &self.external[i - a - b]
                } else {
                    &self.noise[i - a - b - c]
                }
            },
        }
    }

    fn stamps(&self, f: &AlertFilter) -> (r: Vec<u64>)
        ensures
            r@ == alert_keys(self@, *f),
    {
        let mut v: Vec<u64> = Vec::new();
        match f {
            AlertFilter::Suspicious => push_stamps(&mut v, &self.suspicious, false),
            AlertFilter::Behavioral => push_stamps(&mut v, &self.behavioral, false),
            AlertFilter::External => push_stamps(&mut v, &self.external, false),
            AlertFilter::Noise => push_stamps(&mut v, &self.noise, false),
            AlertFilter::All => {
                push_stamps(&mut v, &self.suspicious, true);
                push_stamps(&mut v, &self.behavioral, true);
                push_stamps(&mut v, &self.external, true);
                push_stamps(&mut v, &self.noise, true);
            },
        }
        assert(v@ =~= alert_keys(self@, *f));
        v
    }

    /// The positions of the alerts that are shown in some rows, oldest first.
    pub fn visible(&self, f: &AlertFilter, rows: usize) -> (r: Vec<usize>)
        ensures
            visible_whole(
                alert_keys(self@, *f),
                order::window(
                    self@.listed(*f).len() as usize,
                    rows,
                    self@.paused_scroll,
                    self@.scroll,
                ),
                r@,
            ),
    {
        let keys = self.stamps(f);
        let order = order_by(&keys);
        let w = window_of(keys.len(), rows, self.paused_scroll, self.scroll);
        let mut r: Vec<usize> = Vec::new();
        let total: usize = order.len();
        for i in 0..w.shown
            invariant
                total == order@.len(),
                w.skip + w.shown <= total,
                r@ == order@.subrange(w.skip as int, w.skip + i),
        {
            r.push(order[w.skip + i]);
            assert(r@ =~= order@.subrange(w.skip as int, w.skip + i + 1));
        }
        assert(whole_part(order@, w, r@));
        assert(alert_keys(self@, *f).len() == self@.listed(*f).len());
        r
    }

    /// The title above the alerts.
    pub fn title(&self, f: &AlertFilter) -> (r: String)
        ensures
            r@ == " Alerts ["@ + alert_filter_name(*f) + "] (Total: "@ + text::dec(
                self@.total_of(*f) as nat,
            ) + ") "@,
    {
        let count: u64 = match f {
            AlertFilter::All => self.total,
            AlertFilter::Suspicious => self.total_suspicious,
            AlertFilter::Behavioral => self.total_behavioral,
            AlertFilter::External => self.total_external,
            AlertFilter::Noise => self.total_noise,
        };
        let mut r = " Alerts [".to_owned();
        r.append(alert_filter_label(f));
        r.append("] (Total: ");
        r.append(dec_text(count).as_str());
        r.append(") ");
        r
    }
}

/// What is shown where no alert passes a filter.
pub fn no_alerts_line(f: &AlertFilter) -> (r: String)
    ensures
        r@ == " No alerts matching filter ["@ + alert_filter_name(*f) + "]"@,
{
    let mut r = " No alerts matching filter [".to_owned();
    r.append(alert_filter_label(f));
    r.append("]");
    r
}

/// The mark and the colour of a tier.
pub open spec fn tier_mark(t: AlertTier) -> (Seq<char>, Tone) {
    match t {
        AlertTier::Suspicious => ("[!]"@, Tone::Danger),
        AlertTier::Behavioral => ("[~]"@, Tone::Warning),
        AlertTier::External => ("[\u{2192}]"@, Tone::Info),
        AlertTier::Noise => ("[-]"@, Tone::Faint),
    }
}

/// The line of an alert and its colour, given the time of the alert as text.
pub fn alert_line(a: &Alert, time: &str) -> (r: (String, Tone))
    ensures
        r.0@ == " ["@ + time@ + "] "@ + tier_mark(a.tier).0 + " "@ + a.message@,
        r.1 == tier_mark(a.tier).1,
{
    let (mark, tone) = match a.tier {
        AlertTier::Suspicious => ("[!]", Tone::Danger),
        AlertTier::Behavioral => ("[~]", Tone::Warning),
        AlertTier::External => ("[\u{2192}]", Tone::Info),
        AlertTier::Noise => ("[-]", Tone::Faint),
    };
    let mut r = " [".to_owned();
    r.append(time);
    r.append("] ");
    r.append(mark);
    r.append(" ");
    r.append(a.message.as_str());
    (r, tone)
}

// ---------------------------------------------------------------------------
// Statistics
// ---------------------------------------------------------------------------

/// The mean size of packets.
pub open spec fn mean_size(c: CountersView) -> Seq<char> {
    if c.total_packets > 0 {
        formatting::bytes_text(c.total_bytes / c.total_packets)
    } else {
        "0B"@
    }
}

/// The greatest amount of bytes in a second, at least one.
pub open spec fn top_bytes(history: Seq<u64>, n: int) -> u64
    decreases n,
{
    if n <= 0 || n > history.len() {
        1
    } else if history[n - 1] > top_bytes(history, n - 1) {
        history[n - 1]
    } else {
        top_bytes(history, n - 1)
    }
}

impl Counters {
    /// The statistics in text, given how long packets have been counted.
    pub fn stats_text(&self, secs: u64) -> (r: String)
        ensures
            r@ == "Total: "@ + formatting::with_commas(self.total_packets as nat) + "\nUptime: "@
                + formatting::uptime_text(secs) + "\nAvg Sz: "@ + mean_size(self@) + "\nPps:   "@
                + formatting::with_commas(self.packets_per_sec as nat),
    {
        let mut r = "Total: ".to_owned();
        r.append(format_with_commas(self.total_packets).as_str());
        r.append("\nUptime: ");
        r.append(format_uptime(secs).as_str());
        r.append("\nAvg Sz: ");
        if self.total_packets > 0 {
            r.append(format_bytes(self.total_bytes / self.total_packets).as_str());
        } else {
            r.append("0B");
        }
        r.append("\nPps:   ");
        r.append(format_with_commas(self.packets_per_sec).as_str());
        r
    }

    /// The greatest amount of bytes in a second, at least one: the top of the
    /// chart.
    pub fn chart_top(&self) -> (r: u64)
        ensures
            r == top_bytes(self@.bytes_history, self@.bytes_history.len() as int),
    {
        let n: usize = self.bytes_history.len();
        let mut top: u64 = 1;
        for i in 0..n
            invariant
                n == self@.bytes_history.len(),
                top == top_bytes(self@.bytes_history, i as int),
        {
            if self.bytes_history[i] > top {
                top = self.bytes_history[i];
            }
        }
        top
    }

    /// The labels of the chart: nothing, half of its top, and its top.
    pub fn chart_labels(&self) -> (r: (String, String, String))
        ensures
            ({
                let top = top_bytes(self@.bytes_history, self@.bytes_history.len() as int);
                r.0@ == "0"@ && r.1@ == formatting::bytes_text(top / 2) && r.2@ == formatting::bytes_text(top)
            }),
    {
        let top: u64 = self.chart_top();
        ("0".to_owned(), format_bytes(top / 2), format_bytes(top))
    }

    /// The bytes of the last second.
    pub fn last_rate(&self) -> (r: u64)
        ensures
            r == (if self@.bytes_history.len() > 0 {
                self@.bytes_history.last()
            } else {
                0
            }),
    {
        let n: usize = self.bytes_history.len();
        if n > 0 {
            self.bytes_history[n - 1]
        } else {
            0
        }
    }
}

// ---------------------------------------------------------------------------
// The footer
// ---------------------------------------------------------------------------

/// The label of a filter for devices.
pub open spec fn discovery_filter_name(f: DiscoveryFilter) -> Seq<char> {
    match f {
        DiscoveryFilter::All => "ALL"@,
        DiscoveryFilter::Named => "NAMED"@,
        DiscoveryFilter::Vendors => "VENDORS"@,
        DiscoveryFilter::Unknown => "UNKNOWN"@,
    }
}

/// The label of a filter for devices.
pub fn discovery_filter_label(f: &DiscoveryFilter) -> (r: &'static str)
    ensures
        r@ == discovery_filter_name(*f),
{
    match f {
        DiscoveryFilter::All => "ALL",
        DiscoveryFilter::Named => "NAMED",
        DiscoveryFilter::Vendors => "VENDORS",
        DiscoveryFilter::Unknown => "UNKNOWN",
    }
}

/// How long a message stands in the footer, in nanoseconds.
pub const MESSAGE_TIME: u64 = 2_000_000_000;

/// What the footer says of the capture.
pub open spec fn capture_status(s: AppState) -> Seq<char> {
    " Capturing on "@ + s.ui.interface_name@ + "  |  Network: "@ + s.ui.current_network@
        + "  |  "@ + formatting::with_commas(s.counters.total_packets as nat) + " packets  |  "@ + formatting::bytes_text(
        if s.counters@.bytes_history.len() > 0 {
            s.counters@.bytes_history.last()
        } else {
            0
        },
    ) + "/sec"@
}

/// The first line of the footer.
pub open spec fn footer_status(s: AppState, now: u64) -> Seq<char> {
    match s.ui.input_mode {
        InputMode::Normal => match s.ui.footer_message {
            Some((m, t)) if formatting::since(now, t) < MESSAGE_TIME => " \u{2714} "@ + m@,
            _ => capture_status(s),
        },
        InputMode::Exporting => " Save report to: "@ + s.ui.input_buffer@ + "_"@,
        InputMode::Whitelisting => " Whitelist IP: "@ + s.ui.input_buffer@ + "_"@,
    }
}

/// What the filter key does.
pub open spec fn filter_key(ui: Ui) -> Seq<char> {
    match ui.focused_panel {
        Panel::Feed => "[F] Protocol: "@ + formatting::filter_name(ui.display_filter),
        Panel::Alerts => "[F] Alerts: "@ + alert_filter_name(ui.alert_filter),
        Panel::Discovery => "[F] Discovery: "@ + discovery_filter_name(ui.discovery_filter),
    }
}

/// What stands in the list of keys before the filter, while the graph is shown.
pub const GRAPH_KEYS: &'static str =
    " [Tab] Switch Panel  [\u{2191}\u{2193}] Scroll  [Alt+S] Scan  [A] Auto-Scan  [G] Graph  [N] Select Node  [Esc] Clear  [E] Export  ";

/// What stands in the list of keys before the filter, while the panels are
/// shown.
pub const PANEL_KEYS: &'static str =
    " [Tab] Switch Panel  [\u{2191}\u{2193}] Scroll  [Alt+S] Scan  [A] Auto-Scan  [G] Graph  [Space] Resume  [E] Export  ";

/// The second line of the footer.
pub open spec fn footer_keys(s: AppState) -> Seq<char> {
    match s.ui.input_mode {
        InputMode::Normal => (if s.graph.show_graph {
            GRAPH_KEYS@
        } else {
            PANEL_KEYS@
        }) + filter_key(s.ui) + "  [W] Whitelist IP  "@ + (if s.ui.ip_compressed {
            "[I] Full IPs"@
        } else {
            "[I] Short IPs"@
        }) + " "@,
        _ => " [Enter] Confirm   [Esc] Cancel "@,
    }
}

impl AppState {
    fn write_capture_status(&self) -> (r: String)
        ensures
            r@ == capture_status(*self),
    {
        let mut r = " Capturing on ".to_owned();
        r.append(self.ui.interface_name.as_str());
        r.append("  |  Network: ");
        r.append(self.ui.current_network.as_str());
        r.append("  |  ");
        r.append(format_with_commas(self.counters.total_packets).as_str());
        r.append(" packets  |  ");
        r.append(format_bytes(self.counters.last_rate()).as_str());
        r.append("/sec");
        r
    }

    /// The first line of the footer.
    pub fn footer_status(&self, now: u64) -> (r: String)
        ensures
            r@ == footer_status(*self, now),
    {
        match self.ui.input_mode {
            InputMode::Normal => {
                match &self.ui.footer_message {
                    Some((m, t)) => {
                        if now.saturating_sub(*t) < MESSAGE_TIME {
                            let mut r = " \u{2714} ".to_owned();
                            r.append(m.as_str());
                            return r;
                        }
                    },
                    None => {},
                }
                self.write_capture_status()
            },
            InputMode::Exporting => {
                let mut r = " Save report to: ".to_owned();
                r.append(self.ui.input_buffer.as_str());
                r.append("_");
                r
            },
            InputMode::Whitelisting => {
                let mut r = " Whitelist IP: ".to_owned();
                r.append(self.ui.input_buffer.as_str());
                r.append("_");
                r
            },
        }
    }

    /// The second line of the footer: what the keys do.
    pub fn footer_keys(&self) -> (r: String)
        ensures
            r@ == footer_keys(*self),
    {
        match self.ui.input_mode {
            InputMode::Normal => {
                let mut r = if self.graph.show_graph {
                    GRAPH_KEYS.to_owned()
                } else {
                    PANEL_KEYS.to_owned()
                };
                let ghost head = r@;
                match self.ui.focused_panel {
                    Panel::Feed => {
                        r.append("[F] Protocol: ");
                        r.append(filter_label(&self.ui.display_filter));
                    },
                    Panel::Alerts => {
                        r.append("[F] Alerts: ");
                        r.append(alert_filter_label(&self.ui.alert_filter));
                    },
                    Panel::Discovery => {
                        r.append("[F] Discovery: ");
                        r.append(discovery_filter_label(&self.ui.discovery_filter));
                    },
                }
                assert(r@ =~= head + filter_key(self.ui));
                r.append("  [W] Whitelist IP  ");
                if self.ui.ip_compressed {
                    r.append("[I] Full IPs");
                } else {
                    r.append("[I] Short IPs");
                }
                r.append(" ");
                r
            },
            _ => " [Enter] Confirm   [Esc] Cancel ".to_owned(),
        }
    }
}

// ---------------------------------------------------------------------------
// How the panels read
// ---------------------------------------------------------------------------

/// What all devices of a network begin with: as many bytes of the addresses as
/// all of them share, three at most.
pub proof fn law_prefix_of_network(list: Seq<u32>, a: u8, b: u8, c: u8, i: int, j: int)
    requires
        0 <= i < list.len(),
        0 <= j < list.len(),
        list[i] % 256 != list[j] % 256,
        forall|k: int|
            0 <= k < list.len() ==> (#[trigger] list[k]) / 256 == a * 65536 + b * 256 + c,
    ensures
        common_prefix(list) == text::dec(a as nat) + "."@ + text::dec(b as nat) + "."@ + text::dec(
            c as nat,
        ) + "."@,
{
    assert forall|k: int| 0 <= k < list.len() implies net::octet(#[trigger] list[k], 0) == a
        && net::octet(list[k], 1) == b && net::octet(list[k], 2) == c by {
        let n = list[k];
        assert(n / 256 == a * 65536 + b * 256 + c);
        assert(n / 16777216 == a);
        assert((n / 65536) % 256 == b);
        assert((n / 256) % 256 == c);
    }
    assert(all_agree(list, 3));
    assert(!all_agree(list, 4)) by {
        if all_agree(list, 4) {
            assert(agree(list[i], list[0], 4) && agree(list[j], list[0], 4));
            assert(net::octet(list[i], 3) == net::octet(list[0], 3));
            assert(net::octet(list[j], 3) == net::octet(list[0], 3));
        }
    }
}

/// An end of a packet reads with its name in brackets, without a name with its
/// place, and else as it is.
pub proof fn law_ends_read(h: HostsView, ip: IpAddr, end: Seq<char>)
    ensures
        ({
            let name = h.shown_name(ip);
            let named = name != net::ip_text(ip) && name != "\u{2014}"@;
            &&& named ==> described_end(h, ip, end) == end + " ("@ + name + ")"@
            &&& !named && h.places.dom().contains(ip) ==> described_end(h, ip, end) == end + " "@
                + geoip::geo_tag(h.places[ip])
            &&& !named && !h.places.dom().contains(ip) ==> described_end(h, ip, end) == end
        }),
{
}

/// What a filter of the feed shows: the packets of one protocol, or of all.
pub proof fn law_feed_filtered(f: FeedsView, e: (u64, PacketView))
    ensures
        fed(f, ProtocolFilter::Tcp) == f.feed_tcp,
        fed(f, ProtocolFilter::Udp) == f.feed_udp,
        fed(f, ProtocolFilter::Icmp) == f.feed_icmp,
        fed(f, ProtocolFilter::All).contains(e) <==> f.feed_tcp.contains(e) || f.feed_udp.contains(e)
            || f.feed_icmp.contains(e),
        fed(f, ProtocolFilter::All).len() == f.feed_tcp.len() + f.feed_udp.len() + f.feed_icmp.len(),
{
    let all = fed(f, ProtocolFilter::All);
    if f.feed_tcp.contains(e) {
        let i = choose|i: int| 0 <= i < f.feed_tcp.len() && f.feed_tcp[i] == e;
        assert(all[i] == e);
    }
    if f.feed_udp.contains(e) {
        let i = choose|i: int| 0 <= i < f.feed_udp.len() && f.feed_udp[i] == e;
        assert(all[f.feed_tcp.len() + i] == e);
    }
    if f.feed_icmp.contains(e) {
        let i = choose|i: int| 0 <= i < f.feed_icmp.len() && f.feed_icmp[i] == e;
        assert(all[f.feed_tcp.len() + f.feed_udp.len() + i] == e);
    }
    if all.contains(e) {
        let i = choose|i: int| 0 <= i < all.len() && all[i] == e;
        let (m, n) = (f.feed_tcp.len(), f.feed_udp.len());
        if i < m {
            assert(f.feed_tcp[i] == e);
        } else if i < m + n {
            assert(f.feed_udp[i - m] == e);
        } else {
            assert(f.feed_icmp[i - m - n] == e);
        }
    }
}

/// A connection of an unknown program from outside to an address in a private
/// network reads as inbound; its organisation is that of the end it goes to,
/// or else of the end it comes from.
pub proof fn law_connections_read(h: HostsView, key: ConnKey, src: u32, dst: u32, program: Seq<char>)
    requires
        key.src == IpAddr::V4(src),
        key.dst == IpAddr::V4(dst),
    ensures
        ({
            let from_inside = 0x0A00_0000 <= src <= 0x0AFF_FFFF || 0xAC10_0000 <= src <= 0xAC1F_FFFF
                || 0xC0A8_0000 <= src <= 0xC0A8_FFFF;
            let to_inside = 0x0A00_0000 <= dst <= 0x0AFF_FFFF || 0xAC10_0000 <= dst <= 0xAC1F_FFFF
                || 0xC0A8_0000 <= dst <= 0xC0A8_FFFF;
            &&& !from_inside && to_inside ==> conn_program(key, "unknown"@) == "\u{2190} inbound"@
            &&& from_inside || !to_inside || program != "unknown"@ ==> conn_program(key, program)
                == program
            &&& h.places.dom().contains(key.dst) ==> conn_org(h.places, key) == " ["@
                + h.places[key.dst].org + "]"@
            &&& !h.places.dom().contains(key.dst) && h.places.dom().contains(key.src) ==> conn_org(
                h.places,
                key,
            ) == " ["@ + h.places[key.src].org + "]"@
            &&& !h.places.dom().contains(key.dst) && !h.places.dom().contains(key.src) ==> conn_org(
                h.places,
                key,
            ).len() == 0
        }),
{
    net::law_private_ranges(src);
    net::law_private_ranges(dst);
}

/// The alerts that a filter lists, how many there were of them, and how a tier
/// is marked.
pub proof fn law_alerts_filtered(l: LogView, a: AlertView)
    ensures
        l.listed(AlertFilter::Suspicious) == l.suspicious,
        l.listed(AlertFilter::Behavioral) == l.behavioral,
        l.listed(AlertFilter::External) == l.external,
        l.listed(AlertFilter::Noise) == l.noise,
        l.listed(AlertFilter::All).len() == l.suspicious.len() + l.behavioral.len()
            + l.external.len() + l.noise.len(),
        l.suspicious.contains(a) ==> l.listed(AlertFilter::All).contains(a),
        l.behavioral.contains(a) ==> l.listed(AlertFilter::All).contains(a),
        l.external.contains(a) ==> l.listed(AlertFilter::All).contains(a),
        l.noise.contains(a) ==> l.listed(AlertFilter::All).contains(a),
        l.total_of(AlertFilter::All) == l.total,
        l.total_of(AlertFilter::Suspicious) == l.total_suspicious,
        l.total_of(AlertFilter::Behavioral) == l.total_behavioral,
        l.total_of(AlertFilter::External) == l.total_external,
        l.total_of(AlertFilter::Noise) == l.total_noise,
        tier_mark(AlertTier::Suspicious).0 == "[!]"@,
        tier_mark(AlertTier::Behavioral).0 == "[~]"@,
        tier_mark(AlertTier::External).0 == "[\u{2192}]"@,
        tier_mark(AlertTier::Noise).0 == "[-]"@,
        tier_mark(AlertTier::Suspicious).1 == Tone::Danger,
        tier_mark(AlertTier::Behavioral).1 == Tone::Warning,
        tier_mark(AlertTier::External).1 == Tone::Info,
        tier_mark(AlertTier::Noise).1 == Tone::Faint,
{
    let all = l.listed(AlertFilter::All);
    let (x, y, z) = (l.suspicious.len(), l.behavioral.len(), l.external.len());
    if l.suspicious.contains(a) {
        let i = choose|i: int| 0 <= i < x && l.suspicious[i] == a;
        assert(all[i] == a);
    }
    if l.behavioral.contains(a) {
        let i = choose|i: int| 0 <= i < y && l.behavioral[i] == a;
        assert(all[x + i] == a);
    }
    if l.external.contains(a) {
        let i = choose|i: int| 0 <= i < z && l.external[i] == a;
        assert(all[x + y + i] == a);
    }
    if l.noise.contains(a) {
        let i = choose|i: int| 0 <= i < l.noise.len() && l.noise[i] == a;
        assert(all[x + y + z + i] == a);
    }
}

/// The scale of the traffic is the most bytes of a second, or one where there
/// were none.
pub proof fn law_scale_of_traffic(history: Seq<u64>, n: int)
    requires
        0 <= n <= history.len(),
    ensures
        top_bytes(history, n) >= 1,
        forall|i: int| 0 <= i < n ==> #[trigger] history[i] <= top_bytes(history, n),
        top_bytes(history, n) == 1 || exists|i: int|
            0 <= i < n && #[trigger] history[i] == top_bytes(history, n),
    decreases n,
{
    if n > 0 {
        law_scale_of_traffic(history, n - 1);
        if history[n - 1] <= top_bytes(history, n - 1) && top_bytes(history, n - 1) != 1 {
            let i = choose|i: int| 0 <= i < n - 1 && #[trigger] history[i] == top_bytes(history, n - 1);
            assert(history[i] == top_bytes(history, n));
        }
    }
}

/// A message stands in the footer for two seconds; while text is entered the
/// text stands there.
pub proof fn law_footer_reads(s: AppState, now: u64)
    ensures
        s.ui.input_mode == InputMode::Exporting ==> footer_status(s, now) == " Save report to: "@
            + s.ui.input_buffer@ + "_"@,
        s.ui.input_mode == InputMode::Whitelisting ==> footer_status(s, now) == " Whitelist IP: "@
            + s.ui.input_buffer@ + "_"@,
        s.ui.input_mode == InputMode::Normal ==> match s.ui.footer_message {
            Some((m, t)) => {
                &&& t <= now < t + 2_000_000_000 ==> footer_status(s, now) == " \u{2714} "@ + m@
                &&& now >= t + 2_000_000_000 ==> footer_status(s, now) == capture_status(s)
            },
            None => footer_status(s, now) == capture_status(s),
        },
        s.ui.input_mode != InputMode::Normal ==> footer_keys(s)
            == " [Enter] Confirm   [Esc] Cancel "@,
{
}

/// The size of a packet on average, and nothing before there was any.
pub proof fn law_mean_size(c: CountersView)
    ensures
        c.total_packets == 0 ==> mean_size(c) == "0B"@,
        c.total_packets > 0 ==> mean_size(c) == formatting::bytes_text(
            c.total_bytes / c.total_packets,
        ),
{
}

} // verus!
