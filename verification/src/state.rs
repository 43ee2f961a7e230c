//! The state of the monitor, and what a packet does to it.

use std::collections::VecDeque;
use vstd::prelude::*;
use vstd::string::*;

use crate::alerts;
use crate::alerts::{Alert, AlertFilter, AlertLog, AlertView, LogView};
use crate::device::{DeviceDetails, DeviceInfo, InfoView};
use crate::flows;
use crate::flows::{Flows, FlowsView, packet_size};
use crate::geoip;
use crate::names;
use crate::names::{Names, NamesView};
use crate::net;
use crate::net::{IpAddr, is_local_or_multicast, is_multicast, is_noise_address, is_private_ip};
use crate::packet::{CapturedPacket, PacketView, Protocol, ProtocolFilter};
use crate::process;
use crate::process::ProcessCache;
use crate::radar::key_addresses;
use crate::rules;
use crate::rules::{
    ContextView, HIGH_VOLUME, RuleContext, append_alerts, check_packet, high_volume_alert,
    is_trusted_service, local_discovery_alert, looks_for_hosts, outbound_alert,
};
use crate::table::{Dup, KeySet, Table};
use crate::text;
use crate::text::same;
use crate::traffic;
use crate::traffic::{Counters, CountersView, ProfileView, TrafficProfile, profile_now};
use crate::watch;
use crate::watch::{Watch, WatchView};

verus! {

/// Which devices are shown.
#[derive(Clone, Copy, Debug, PartialEq, Eq, Structural)]
pub enum DiscoveryFilter {
    All,
    Named,
    Vendors,
    Unknown,
}

/// The parts of the screen that can be chosen.
#[derive(Clone, Copy, Debug, PartialEq, Eq, Structural)]
pub enum Panel {
    Feed,
    Alerts,
    Discovery,
}

/// What keys mean.
#[derive(Clone, Copy, Debug, PartialEq, Eq, Structural)]
pub enum InputMode {
    Normal,
    Exporting,
    Whitelisting,
}

// ---------------------------------------------------------------------------
// The feed
// ---------------------------------------------------------------------------

/// The number of packets of a protocol that the feed keeps.
pub const FEED_LIMIT: usize = 2000;

/// The newest packets of each protocol, oldest first, and when they came.
pub struct Feeds {
    pub feed_tcp: VecDeque<(u64, CapturedPacket)>,
    pub feed_udp: VecDeque<(u64, CapturedPacket)>,
    pub feed_icmp: VecDeque<(u64, CapturedPacket)>,
    /// How far the feed is scrolled back from its newest packet.
    pub feed_scroll: usize,
    /// Whether the feed stays where it is when packets come.
    pub feed_paused_scroll: bool,
}

/// The newest packets of each protocol.
pub struct FeedsView {
    pub feed_tcp: Seq<(u64, PacketView)>,
    pub feed_udp: Seq<(u64, PacketView)>,
    pub feed_icmp: Seq<(u64, PacketView)>,
    pub feed_scroll: usize,
    pub feed_paused_scroll: bool,
}

/// The views of packets with their times.
pub open spec fn feed_views(s: Seq<(u64, CapturedPacket)>) -> Seq<(u64, PacketView)> {
    Seq::new(s.len(), |i: int| (s[i].0, s[i].1@))
}

impl View for Feeds {
    type V = FeedsView;

    open spec fn view(&self) -> FeedsView {
        FeedsView {
            feed_tcp: feed_views(self.feed_tcp@),
            feed_udp: feed_views(self.feed_udp@),
            feed_icmp: feed_views(self.feed_icmp@),
            feed_scroll: self.feed_scroll,
            feed_paused_scroll: self.feed_paused_scroll,
        }
    }
}

/// An empty feed.
pub open spec fn no_feeds() -> FeedsView {
    FeedsView {
        feed_tcp: Seq::empty(),
        feed_udp: Seq::empty(),
        feed_icmp: Seq::empty(),
        feed_scroll: 0,
        feed_paused_scroll: false,
    }
}

/// A feed with one more packet: beyond the limit the oldest goes.
pub open spec fn feed_with(s: Seq<(u64, PacketView)>, now: u64, p: PacketView) -> Seq<
    (u64, PacketView),
> {
    if s.len() + 1 > FEED_LIMIT {
        s.push((now, p)).drop_first()
    } else {
        s.push((now, p))
    }
}

impl FeedsView {
    /// The feeds with one more packet.
    pub open spec fn with(self, now: u64, p: PacketView) -> FeedsView {
        FeedsView {
            feed_tcp: if p.protocol == Protocol::Tcp { feed_with(self.feed_tcp, now, p) } else {
                self.feed_tcp
            },
            feed_udp: if p.protocol == Protocol::Udp { feed_with(self.feed_udp, now, p) } else {
                self.feed_udp
            },
            feed_icmp: if p.protocol == Protocol::Icmp { feed_with(self.feed_icmp, now, p) } else {
                self.feed_icmp
            },
            feed_scroll: if self.feed_paused_scroll { alerts::one_back(self.feed_scroll) } else {
                self.feed_scroll
            },
            ..self
        }
    }

    /// No feed keeps more packets than it may.
    pub open spec fn bounded(self) -> bool {
        &&& self.feed_tcp.len() <= FEED_LIMIT
        &&& self.feed_udp.len() <= FEED_LIMIT
        &&& self.feed_icmp.len() <= FEED_LIMIT
    }
}

/// A feed holds packets of one protocol only, in the order in which they
/// arrived.
pub open spec fn feed_in_order(s: Seq<(u64, PacketView)>, protocol: Protocol) -> bool {
    &&& forall|i: int| 0 <= i < s.len() ==> (#[trigger] s[i]).1.protocol == protocol
    &&& forall|i: int, j: int| 0 <= i < j < s.len() ==> (#[trigger] s[i]).0 <= (#[trigger] s[j]).0
}

/// Nothing in a feed arrived after a time.
pub open spec fn feed_until(s: Seq<(u64, PacketView)>, now: u64) -> bool {
    forall|i: int| 0 <= i < s.len() ==> (#[trigger] s[i]).0 <= now
}

impl FeedsView {
    /// Each feed holds packets of its own protocol only, in the order in which
    /// they arrived, none after a time.
    pub open spec fn in_order(self, now: u64) -> bool {
        &&& feed_in_order(self.feed_tcp, Protocol::Tcp) && feed_until(self.feed_tcp, now)
        &&& feed_in_order(self.feed_udp, Protocol::Udp) && feed_until(self.feed_udp, now)
        &&& feed_in_order(self.feed_icmp, Protocol::Icmp) && feed_until(self.feed_icmp, now)
    }

    /// The feed of a protocol.
    pub open spec fn feed_of(self, protocol: Protocol) -> Seq<(u64, PacketView)> {
        match protocol {
            Protocol::Tcp => self.feed_tcp,
            Protocol::Udp => self.feed_udp,
            Protocol::Icmp => self.feed_icmp,
            Protocol::Unknown(_) => Seq::empty(),
        }
    }
}

/// From the empty feeds on, each feed holds packets of its own protocol only,
/// in the order in which they arrived.
pub proof fn law_feeds_in_order(f: FeedsView, before: u64, now: u64, p: PacketView)
    requires
        f.in_order(before),
        before <= now,
    ensures
        no_feeds().in_order(now),
        f.in_order(now),
        f.with(now, p).in_order(now),
{
    let s = f.feed_of(p.protocol);
    let t = feed_with(s, now, p);
    let d: int = if s.len() + 1 > FEED_LIMIT {
        1
    } else {
        0
    };
    assert forall|i: int| 0 <= i < t.len() implies #[trigger] t[i] == s.push((now, p))[i + d] by {}
}

/// A packet comes last in the feed of its protocol and leaves the other feeds
/// alone. Where its feed is full the oldest packet goes, and no other.
pub proof fn law_oldest_packet_goes(f: FeedsView, now: u64, p: PacketView)
    requires
        f.bounded(),
    ensures
        ({
            let s = f.feed_of(p.protocol);
            let t = f.with(now, p).feed_of(p.protocol);
            p.protocol !is Unknown ==> t == (if s.len() < FEED_LIMIT {
                s.push((now, p))
            } else {
                s.drop_first().push((now, p))
            })
        }),
        forall|q: Protocol|
            q != p.protocol ==> #[trigger] f.with(now, p).feed_of(q) == f.feed_of(q),
{
    let s = f.feed_of(p.protocol);
    assert(s.len() > 0 ==> s.push((now, p)).drop_first() =~= s.drop_first().push((now, p)));
}

/// However many packets come, no feed keeps more than it may.
pub proof fn law_feeds_bounded(f: FeedsView, now: u64, p: PacketView)
    requires
        f.bounded(),
    ensures
        f.with(now, p).bounded(),
{
}

fn push_feed(f: &mut VecDeque<(u64, CapturedPacket)>, now: u64, p: &CapturedPacket)
    ensures
        feed_views(final(f)@) == feed_with(feed_views(old(f)@), now, p@),
{
    let c = p.copy();
    f.push_back((now, c));
    assert(feed_views(f@) =~= feed_views(old(f)@).push((now, p@)));
    if f.len() > FEED_LIMIT {
        let ghost full = f@;
        let gone = f.pop_front();
        assert(feed_views(f@) =~= feed_views(full).drop_first());
    }
}

impl Feeds {
    /// An empty feed.
    pub fn new() -> (r: Feeds)
        ensures
            r@ == no_feeds(),
    {
        let r = Feeds {
            feed_tcp: VecDeque::new(),
            feed_udp: VecDeque::new(),
            feed_icmp: VecDeque::new(),
            feed_scroll: 0,
            feed_paused_scroll: false,
        };
        assert(r@.feed_tcp =~= Seq::empty());
        assert(r@.feed_udp =~= Seq::empty());
        assert(r@.feed_icmp =~= Seq::empty());
        r
    }

    /// Adds a packet to the feed of its protocol.
    pub fn push(&mut self, now: u64, p: &CapturedPacket)
        ensures
            final(self)@ == old(self)@.with(now, p@),
    {
        match p.protocol {
            Protocol::Tcp => {
                push_feed(&mut self.feed_tcp, now, p);
            },
            Protocol::Udp => {
                push_feed(&mut self.feed_udp, now, p);
            },
            Protocol::Icmp => {
                push_feed(&mut self.feed_icmp, now, p);
            },
            Protocol::Unknown(_) => {},
        }
        if self.feed_paused_scroll {
            self.feed_scroll = self.feed_scroll.saturating_add(1);
        }
    }
}

// ---------------------------------------------------------------------------
// The nodes of the graph
// ---------------------------------------------------------------------------

/// An address in the graph.
#[derive(Clone, Copy, Debug, PartialEq, Eq, Structural)]
pub struct GraphNode {
    /// When the address was last seen, in nanoseconds of the steady clock.
    pub last_seen: u64,
    /// Whether the address is that of this host.
    pub pinned: bool,
}

impl View for GraphNode {
    type V = GraphNode;

    open spec fn view(&self) -> GraphNode {
        *self
    }
}

impl Dup for GraphNode {
    fn dup(&self) -> (r: Self) {
        *self
    }
}

/// The nodes after an address was seen.
pub open spec fn nodes_with(m: Map<IpAddr, GraphNode>, ip: IpAddr, now: u64) -> Map<
    IpAddr,
    GraphNode,
> {
    if net::multicast(ip) || ip == IpAddr::V4(0xFFFF_FFFF) {
        m
    } else {
        m.insert(
            ip,
            GraphNode {
                last_seen: now,
                pinned: if m.dom().contains(ip) { m[ip].pinned } else { false },
            },
        )
    }
}

fn see_node(nodes: &mut Table<IpAddr, GraphNode>, ip: IpAddr, now: u64)
    ensures
        final(nodes)@ == nodes_with(old(nodes)@, ip, now),
{
    if is_multicast(&ip) || ip == IpAddr::V4(0xFFFF_FFFF) {
        return;
    }
    let pinned = match nodes.get(&ip) {
        Some(n) => n.pinned,
        None => false,
    };
    nodes.insert(ip, GraphNode { last_seen: now, pinned });
}

/// Some node is that of this host.
pub open spec fn has_host(m: Map<IpAddr, GraphNode>) -> bool {
    exists|ip: IpAddr| #[trigger] m.dom().contains(ip) && m[ip].pinned
}

/// An address that this host may have: one of a private network that sent
/// packets and is in the graph.
pub open spec fn host_candidate(
    m: Map<IpAddr, GraphNode>,
    sent: Map<IpAddr, u64>,
    ip: IpAddr,
) -> bool {
    net::private_ip(ip) && m.dom().contains(ip) && sent.dom().contains(ip)
}

/// The address that sent most of those that this host may have.
pub open spec fn best_candidate(
    m: Map<IpAddr, GraphNode>,
    sent: Map<IpAddr, u64>,
    ip: IpAddr,
) -> bool {
    host_candidate(m, sent, ip) && forall|other: IpAddr| #[trigger]
        host_candidate(m, sent, other) ==> sent[other] <= sent[ip]
}

/// `after` is `m` with a node for this host: one that was there, else that of
/// an address that sent most, else none.
pub open spec fn host_chosen(
    m: Map<IpAddr, GraphNode>,
    sent: Map<IpAddr, u64>,
    after: Map<IpAddr, GraphNode>,
) -> bool {
    if has_host(m) || forall|ip: IpAddr| !#[trigger] host_candidate(m, sent, ip) {
        after == m
    } else {
        exists|ip: IpAddr| #[trigger]
            best_candidate(m, sent, ip) && after == m.insert(
                ip,
                GraphNode { pinned: true, ..m[ip] },
            )
    }
}

fn any_host(nodes: &Table<IpAddr, GraphNode>) -> (r: bool)
    ensures
        r == has_host(nodes@),
{
    let n: usize = nodes.len();
    for i in 0..n
        invariant
            n == nodes.items().len(),
            forall|j: int| 0 <= j < i ==> !(#[trigger] nodes.items()[j]).1.pinned,
            forall|i: int|
                0 <= i < nodes.items().len() ==> nodes@.dom().contains(
                    (#[trigger] nodes.items()[i]).0,
                ) && nodes@[nodes.items()[i].0] == nodes.items()[i].1,
            forall|k: IpAddr|
                nodes@.dom().contains(k) ==> exists|i: int|
                    0 <= i < nodes.items().len() && (#[trigger] nodes.items()[i]).0 == k,
    {
        let (ip, node) = nodes.entry(i);
        if node.pinned {
            assert(nodes@.dom().contains(ip@) && nodes@[ip@].pinned);
            return true;
        }
    }
    false
}

fn choose_host(nodes: &mut Table<IpAddr, GraphNode>, sent: &Table<IpAddr, u64>)
    ensures
        host_chosen(old(nodes)@, sent@, final(nodes)@),
{
    if any_host(nodes) {
        return;
    }
    let mut best: Option<(IpAddr, u64)> = None;
    let n: usize = sent.len();
    for i in 0..n
        invariant
            n == sent.items().len(),
            match best {
                Some((ip, c)) => host_candidate(nodes@, sent@, ip) && sent@[ip] == c && forall|j: int|
                    0 <= j < i && host_candidate(
                        nodes@,
                        sent@,
                        (#[trigger] sent.items()[j]).0,
                    ) ==> sent.items()[j].1 <= c,
                None => forall|j: int|
                    0 <= j < i ==> !host_candidate(nodes@, sent@, (#[trigger] sent.items()[j]).0),
            },
            forall|i: int|
                0 <= i < sent.items().len() ==> sent@.dom().contains((#[trigger] sent.items()[i]).0)
                    && sent@[sent.items()[i].0] == sent.items()[i].1,
            forall|k: IpAddr|
                sent@.dom().contains(k) ==> exists|i: int|
                    0 <= i < sent.items().len() && (#[trigger] sent.items()[i]).0 == k,
    {
        let (ip, c) = sent.entry(i);
        if is_private_ip(ip) && nodes.contains_key(ip) {
            let better = match best {
                Some((_, most)) => *c >= most,
                None => true,
            };
            if better {
                best = Some((*ip, *c));
            }
        }
    }
    if let Some((ip, c)) = best {
        if let Some(node) = nodes.get(&ip) {
            let last_seen: u64 = node.last_seen;
            proof {
                assert(host_candidate(nodes@, sent@, ip));
                assert forall|other: IpAddr| #[trigger] host_candidate(
                    nodes@,
                    sent@,
                    other,
                ) implies sent@[other] <= sent@[ip] by {
                    let j = choose|j: int|
                        0 <= j < sent.items().len() && (#[trigger] sent.items()[j]).0 == other;
                    assert(sent.items()[j].1 <= c);
                }
                assert(best_candidate(nodes@, sent@, ip));
            }
            nodes.insert(ip, GraphNode { last_seen, pinned: true });
        }
    } else {
        assert forall|ip: IpAddr| !#[trigger] host_candidate(nodes@, sent@, ip) by {
            if host_candidate(nodes@, sent@, ip) {
                let j = choose|j: int|
                    0 <= j < sent.items().len() && (#[trigger] sent.items()[j]).0 == ip;
                assert(!host_candidate(nodes@, sent@, sent.items()[j].0));
            }
        }
    }
}

// ---------------------------------------------------------------------------
// The whole state
// ---------------------------------------------------------------------------

/// The graph and what is chosen in it.
pub struct Graph {
    pub show_graph: bool,
    pub graph_nodes: Table<IpAddr, GraphNode>,
    pub graph_tick: u64,
    pub selected_node: Option<IpAddr>,
    /// The addresses that have a place in the graph, in the order of their places.
    pub positioned_nodes: Vec<IpAddr>,
    /// When the sweep last passed an address.
    pub sweep_hit_tick: Table<IpAddr, u64>,
}

/// What is chosen on the screen, and what it says besides the traffic.
pub struct Ui {
    pub interface_name: String,
    pub current_network: String,
    pub start_time: u64,
    pub paused: bool,
    pub display_filter: ProtocolFilter,
    pub alert_filter: AlertFilter,
    pub discovery_filter: DiscoveryFilter,
    pub limit_reached: bool,
    pub capture_error: Option<String>,
    pub focused_panel: Panel,
    pub discovery_scroll: usize,
    pub discovery_paused_scroll: bool,
    pub discovery_status: String,
    pub last_discovery_time: String,
    pub auto_scan_enabled: bool,
    pub last_auto_scan: u64,
    pub scan_has_run: bool,
    pub ip_compressed: bool,
    pub input_mode: InputMode,
    pub input_buffer: String,
    pub geo_in_flight: usize,
    /// A message and when it was set.
    pub footer_message: Option<(String, u64)>,
}

/// The devices of the local network.
pub struct Devices {
    /// Devices that were overheard.
    pub passive_discovery: Table<IpAddr, DeviceInfo>,
    /// Devices that a scan found.
    pub active_discovery: Table<IpAddr, DeviceInfo>,
    /// What devices tell of themselves.
    pub device_metadata: Table<IpAddr, DeviceDetails>,
    /// The addresses of the devices that were known when the last scan began,
    /// once there were any.
    pub baseline: Option<KeySet<IpAddr>>,
}

/// A set of addresses that may not have been taken yet.
pub open spec fn taken_set(o: Option<KeySet<IpAddr>>) -> Option<Set<IpAddr>> {
    match o {
        Some(k) => Some(k@),
        None => None,
    }
}

/// A device was not known before: its address is outside the baseline, where
/// there is one.
pub open spec fn outside_baseline(known: Option<Set<IpAddr>>, ip: IpAddr) -> bool {
    match known {
        Some(k) => !k.contains(ip),
        None => false,
    }
}

/// The baseline once the devices that are known now are taken into it. Without
/// devices it stays as it is.
pub open spec fn baseline_taken(
    known: Option<Set<IpAddr>>,
    devices: Map<IpAddr, InfoView>,
) -> Option<Set<IpAddr>> {
    if devices.dom().len() == 0 {
        known
    } else {
        Some(devices.dom())
    }
}

/// Whether a device was not known before.
pub fn is_outside_baseline(known: &Option<KeySet<IpAddr>>, ip: &IpAddr) -> (r: bool)
    ensures
        r == outside_baseline(taken_set(*known), *ip),
{
    match known {
        Some(k) => !k.contains(ip),
        None => false,
    }
}

impl Devices {
    /// Takes the devices that are known now as the baseline of a scan.
    pub fn take_baseline(&mut self)
        ensures
            *final(self) == (Devices { baseline: final(self).baseline, ..*old(self) }),
            taken_set(final(self).baseline) == baseline_taken(
                taken_set(old(self).baseline),
                old(self).active_discovery@,
            ),
    {
        let n: usize = self.active_discovery.len();
        if n > 0 {
            let ips = key_addresses(&self.active_discovery);
            let m: usize = ips.len();
            let mut k: KeySet<IpAddr> = KeySet::new();
            for i in 0..m
                invariant
                    m == ips@.len(),
                    k@ == ips@.take(i as int).to_set(),
            {
                let ghost seen = ips@.take(i as int);
                assert(ips@.take(i + 1) =~= seen.push(ips@[i as int]));
                k.insert(ips[i]);
                assert(k@ =~= ips@.take(i + 1).to_set()) by {
                    assert forall|q: IpAddr| seen.to_set().insert(ips@[i as int]).contains(q)
                        == seen.push(ips@[i as int]).to_set().contains(q) by {
                        if seen.contains(q) {
                            let j = choose|j: int| 0 <= j < seen.len() && seen[j] == q;
                            assert(seen.push(ips@[i as int])[j] == q);
                        }
                        assert(seen.push(ips@[i as int])[seen.len() as int] == ips@[i as int]);
                    }
                }
            }
            assert(ips@.take(m as int) =~= ips@);
            assert(k@ =~= self.active_discovery@.dom());
            self.baseline = Some(k);
        }
    }
}

/// What a scan finds is marked as not known before exactly where it was not
/// known when the scan began.
pub proof fn law_baseline_tells_new_devices(
    known: Option<Set<IpAddr>>,
    before: Map<IpAddr, InfoView>,
    ip: IpAddr,
)
    requires
        before.dom().len() > 0,
    ensures
        outside_baseline(baseline_taken(known, before), ip) <==> !before.dom().contains(ip),
{
}

/// The state of the monitor.
pub struct AppState {
    pub counters: Counters,
    pub flows: Flows,
    pub names: Names,
    pub traffic_profiles: Table<IpAddr, TrafficProfile>,
    pub watch: Watch,
    pub alerts: AlertLog,
    pub feeds: Feeds,
    pub graph: Graph,
    pub ui: Ui,
    pub devices: Devices,
    pub whitelist: KeySet<IpAddr>,
    pub process_cache: ProcessCache,
}

/// What packets change, and what decides how.
pub struct TrafficView {
    pub counters: CountersView,
    pub flows: FlowsView,
    pub names: NamesView,
    pub profiles: Map<IpAddr, ProfileView>,
    pub watch: WatchView,
    pub alerts: LogView,
    pub feeds: FeedsView,
    pub nodes: Map<IpAddr, GraphNode>,
    pub whitelist: Set<IpAddr>,
    pub programs: Map<u32, Seq<char>>,
    pub active: Map<IpAddr, InfoView>,
}

impl AppState {
    /// What packets change, and what decides how.
    pub open spec fn traffic(&self) -> TrafficView {
        TrafficView {
            counters: self.counters@,
            flows: self.flows@,
            names: self.names@,
            profiles: self.traffic_profiles@,
            watch: self.watch@,
            alerts: self.alerts@,
            feeds: self.feeds@,
            nodes: self.graph.graph_nodes@,
            whitelist: self.whitelist@,
            programs: self.process_cache@,
            active: self.devices.active_discovery@,
        }
    }
}

// ---------------------------------------------------------------------------
// What a packet does
// ---------------------------------------------------------------------------

/// The first of two ports.
pub open spec fn either_port(a: Option<u16>, b: Option<u16>) -> Option<u16> {
    match a {
        Some(p) => Some(p),
        None => b,
    }
}

/// The port of the sender, or zero.
pub open spec fn port_or_zero(p: Option<u16>) -> u16 {
    match p {
        Some(port) => port,
        None => 0,
    }
}

/// A known name, or another text.
pub open spec fn name_or(m: Map<u32, Seq<char>>, k: u32, other: Seq<char>) -> Seq<char> {
    geoip::or_text(process::known_name(m, k), other)
}

/// The profiles after a packet: of a sender in a private network what it
/// sends, of a receiver in one what it gets.
pub open spec fn profiles_sent(m: Map<IpAddr, ProfileView>, p: PacketView, now: u64) -> Map<
    IpAddr,
    ProfileView,
> {
    if net::private_ip(p.src_ip) {
        m.insert(
            p.src_ip,
            traffic::current_profile(m, p.src_ip, now).sent(p.protocol, p.dst_ip, p.dst_port, flows::size_of(p)),
        )
    } else {
        m
    }
}

/// The profiles after a packet.
pub open spec fn profiles_after(m: Map<IpAddr, ProfileView>, p: PacketView, now: u64) -> Map<
    IpAddr,
    ProfileView,
> {
    let a = profiles_sent(m, p, now);
    if net::private_ip(p.dst_ip) {
        a.insert(p.dst_ip, traffic::current_profile(a, p.dst_ip, now).received(flows::size_of(p)))
    } else {
        a
    }
}

/// The profiles can count one more packet.
pub open spec fn profiles_room(m: Map<IpAddr, ProfileView>, p: PacketView, now: u64) -> bool {
    &&& net::private_ip(p.src_ip) ==> traffic::current_profile(m, p.src_ip, now).room_up(
        p.protocol,
        p.dst_port,
        flows::size_of(p),
    )
    &&& net::private_ip(p.dst_ip) ==> traffic::current_profile(
        profiles_sent(m, p, now),
        p.dst_ip,
        now,
    ).download_bytes + flows::size_of(p) <= u64::MAX
}

/// At most one alert as a sequence.
pub open spec fn if_any(o: Option<AlertView>) -> Seq<AlertView> {
    match o {
        Some(a) => seq![a],
        None => Seq::empty(),
    }
}

/// The most alerts that one packet can raise.
pub const MOST_ALERTS: u64 = 12;

impl TrafficView {
    /// A packet that is counted: neither address is one that no host has.
    pub open spec fn counts(p: PacketView) -> bool {
        !net::noise_address(p.src_ip) && !net::noise_address(p.dst_ip)
    }

    /// One more packet can be taken into account.
    pub open spec fn room(self, p: PacketView, now: u64) -> bool {
        &&& self.counters.room(flows::size_of(p))
        &&& self.flows.room(p)
        &&& self.names.room(p)
        &&& profiles_room(self.profiles, p, now)
        &&& self.watch.flood_room(p, now)
        &&& self.alerts.room(MOST_ALERTS as nat)
        &&& self.silenced(p) || self.names.place_readable(p.src_ip) && self.names.place_readable(
            p.dst_ip,
        )
    }

    /// The program shown for the addresses of a packet.
    pub open spec fn owner(self, p: PacketView) -> Seq<char> {
        match either_port(p.src_port, p.dst_port) {
            Some(port) => name_or(self.programs, process::port_key(port, p.protocol), "--"@),
            None => "--"@,
        }
    }

    /// The key of the sender's port.
    pub open spec fn sender_key(self, p: PacketView) -> u32 {
        process::port_key(port_or_zero(p.src_port), p.protocol)
    }

    /// The program of the connection of a packet.
    pub open spec fn program(self, p: PacketView) -> Seq<char> {
        match p.process {
            Some(name) if name != "unknown"@ => name,
            _ => name_or(self.programs, self.sender_key(p), "unknown"@),
        }
    }

    /// The flows after a packet.
    pub open spec fn flows_after(self, p: PacketView, now: u64) -> FlowsView {
        self.flows.with(p, now, self.owner(p), self.program(p))
    }

    /// The name of the program for which regular calls may be in order.
    pub open spec fn caller(self, p: PacketView) -> Seq<char> {
        name_or(self.programs, self.sender_key(p), Seq::empty())
    }

    /// What the detectors remember after a packet.
    pub open spec fn watch_after(self, p: PacketView, now: u64) -> WatchView {
        self.watch.after_flood(p, now).after_beacon(p, now, self.caller(p)).after_scan(p)
    }

    /// The alerts of the detectors on a packet.
    pub open spec fn detected(self, p: PacketView, now: u64, wall: u64) -> Seq<AlertView> {
        let a = self.watch.after_flood(p, now);
        let b = a.after_beacon(p, now, self.caller(p));
        if_any(self.watch.flood_alert(p, now, wall)) + if_any(
            a.beacon_alert(p, now, wall, self.caller(p)),
        ) + if_any(b.scan_alert(p, wall))
    }

    /// One of the addresses of a packet is not to be alerted.
    pub open spec fn silenced(self, p: PacketView) -> bool {
        self.whitelist.contains(p.src_ip) || self.whitelist.contains(p.dst_ip)
    }

    /// What the rules need besides a packet.
    pub open spec fn context(self, p: PacketView, wall: u64) -> ContextView {
        ContextView {
            wall,
            program: self.program(p),
            dst_place: self.names.place(p.dst_ip),
            src_place: self.names.place(p.src_ip),
        }
    }

    /// The pair of addresses of a packet has much traffic, not alerted before.
    pub open spec fn much(self, p: PacketView, now: u64) -> bool {
        let pair = (p.src_ip, p.dst_ip);
        self.flows_after(p, now).pair_packet_counts[pair] >= HIGH_VOLUME
            && !self.watch_after(p, now).high_volume_alerted.contains(pair)
    }

    /// The alerts of the rules on a packet.
    pub open spec fn ruled(self, p: PacketView, now: u64, wall: u64) -> Seq<AlertView> {
        let c = self.context(p, wall);
        rules::packet_alerts(p, c) + if_any(
            if self.much(p, now) { Some(rules::volume_alert(p.src_ip, p.dst_ip, c)) } else { None },
        )
    }

    /// What is remembered after the rules.
    pub open spec fn watch_ruled(self, p: PacketView, now: u64) -> WatchView {
        let w = self.watch_after(p, now);
        if self.much(p, now) {
            WatchView {
                high_volume_alerted: w.high_volume_alerted.insert((p.src_ip, p.dst_ip)),
                ..w
            }
        } else {
            w
        }
    }

    /// One of the addresses of a packet is that of a trusted service.
    pub open spec fn serviced(self, p: PacketView) -> bool {
        let m = names::names_after(self.names.dns_cache, p);
        rules::trusted_service(p.src_ip, names::at(m, p.src_ip)) || rules::trusted_service(p.dst_ip, names::at(m, p.dst_ip))
    }

    /// A packet is the first one of its connection.
    pub open spec fn opens(self, p: PacketView, now: u64) -> bool {
        self.flows_after(p, now).connections[flows::conn_key(p)].packets == 1
    }

    /// A packet is the first contact with an address outside of this network.
    pub open spec fn contacts_outside(self, p: PacketView, now: u64) -> bool {
        !net::local_or_multicast(p.dst_ip) && self.opens(p, now) && !self.watch_ruled(
            p,
            now,
        ).external_alerted.contains(p.dst_ip)
    }

    /// The informative alerts on a packet.
    pub open spec fn noted(self, p: PacketView, now: u64, wall: u64) -> Seq<AlertView> {
        let c = self.context(p, wall);
        if_any(
            if self.contacts_outside(p, now) {
                Some(rules::contact_alert(p, self.names.org(p.dst_ip), c))
            } else {
                None
            },
        ) + if_any(
            if rules::is_discovery(p) && self.opens(p, now) { Some(rules::discovery_alert(p, c)) } else { None },
        )
    }

    /// What is remembered after everything.
    pub open spec fn watch_noted(self, p: PacketView, now: u64) -> WatchView {
        let w = self.watch_ruled(p, now);
        if self.contacts_outside(p, now) {
            WatchView { external_alerted: w.external_alerted.insert(p.dst_ip), ..w }
        } else {
            w
        }
    }

    /// The alerts on a packet.
    pub open spec fn raised(self, p: PacketView, now: u64, wall: u64) -> Seq<AlertView> {
        if self.silenced(p) {
            self.detected(p, now, wall)
        } else if self.serviced(p) {
            self.detected(p, now, wall) + self.ruled(p, now, wall)
        } else {
            self.detected(p, now, wall) + self.ruled(p, now, wall) + self.noted(p, now, wall)
        }
    }

    /// A packet goes into the feed.
    pub open spec fn fed(self, p: PacketView) -> bool {
        !self.silenced(p) && !self.serviced(p)
    }

    /// The nodes after a packet, before a node is chosen for this host.
    pub open spec fn nodes_after(self, p: PacketView, now: u64) -> Map<IpAddr, GraphNode> {
        nodes_with(nodes_with(self.nodes, p.src_ip, now), p.dst_ip, now)
    }

    /// `after` is the state after a packet that counts.
    pub open spec fn ingested(self, p: PacketView, now: u64, wall: u64, after: TrafficView) -> bool {
        &&& after.counters == self.counters.with(p.protocol, flows::size_of(p))
        &&& after.flows == self.flows_after(p, now)
        &&& after.names == self.names.with(p, self.active)
        &&& after.profiles == profiles_after(self.profiles, p, now)
        &&& after.watch == (if self.silenced(p) {
            self.watch_after(p, now)
        } else if self.serviced(p) {
            self.watch_ruled(p, now)
        } else {
            self.watch_noted(p, now)
        })
        &&& after.alerts == self.alerts.with_all(self.raised(p, now, wall))
        &&& after.feeds == (if self.fed(p) { self.feeds.with(now, p) } else { self.feeds })
        &&& if self.fed(p) {
            host_chosen(
                self.nodes_after(p, now),
                self.flows_after(p, now).src_packet_counts,
                after.nodes,
            )
        } else {
            after.nodes == self.nodes_after(p, now)
        }
        &&& after.whitelist == self.whitelist
        &&& after.programs == self.programs
        &&& after.active == self.active
    }
}

/// An address on the whitelist is alerted by the detectors only, and its
/// packets do not go into the feed.
pub proof fn law_whitelist_silences(
    s: TrafficView,
    p: PacketView,
    now: u64,
    wall: u64,
    after: TrafficView,
)
    requires
        s.ingested(p, now, wall, after),
        s.whitelist.contains(p.src_ip) || s.whitelist.contains(p.dst_ip),
    ensures
        after.alerts == s.alerts.with_all(s.detected(p, now, wall)),
        after.feeds == s.feeds,
{
}

/// A pair of addresses is alerted for much traffic once only.
pub proof fn law_volume_alerted_once(
    s: TrafficView,
    p: PacketView,
    now: u64,
    wall: u64,
    after: TrafficView,
    q: PacketView,
    later: u64,
)
    requires
        s.ingested(p, now, wall, after),
        !s.silenced(p),
        s.much(p, now),
        q.src_ip == p.src_ip,
        q.dst_ip == p.dst_ip,
    ensures
        !after.much(q, later),
{
}

/// An address outside of this network is alerted as contacted once only.
pub proof fn law_contact_alerted_once(
    s: TrafficView,
    p: PacketView,
    now: u64,
    wall: u64,
    after: TrafficView,
    q: PacketView,
    later: u64,
)
    requires
        s.ingested(p, now, wall, after),
        s.fed(p),
        s.contacts_outside(p, now),
        q.dst_ip == p.dst_ip,
    ensures
        !after.contacts_outside(q, later),
{
}

proof fn lemma_raised_len(s: TrafficView, p: PacketView, now: u64, wall: u64)
    ensures
        s.raised(p, now, wall).len() <= MOST_ALERTS,
{
    rules::lemma_packet_alerts_len(p, s.context(p, wall));
}

/// A packet adds to the counts what it is, keeps the tiers and feeds within
/// their limits and the feeds in order, and leaves the whitelist alone.
pub proof fn law_packet_keeps_bounds(
    s: TrafficView,
    p: PacketView,
    before: u64,
    now: u64,
    wall: u64,
    after: TrafficView,
)
    requires
        s.ingested(p, now, wall, after),
        s.room(p, now),
        s.counters.consistent(),
        s.alerts.bounded(),
        s.alerts.counted(),
        s.alerts.within_totals(),
        s.feeds.bounded(),
        s.feeds.in_order(before),
        before <= now,
    ensures
        after.counters.consistent(),
        after.counters.total_packets == s.counters.total_packets + 1,
        after.counters.total_bytes == s.counters.total_bytes + flows::size_of(p),
        after.alerts.bounded(),
        after.alerts.counted(),
        after.alerts.within_totals(),
        after.feeds.bounded(),
        after.feeds.in_order(now),
        after.whitelist == s.whitelist,
{
    lemma_raised_len(s, p, now, wall);
    alerts::law_totals_add_up(s.alerts, s.raised(p, now, wall), Seq::empty());
    alerts::law_lists_within_totals(s.alerts, s.raised(p, now, wall), Seq::empty());
    law_feeds_in_order(s.feeds, before, now, p);
    traffic::law_counts_consistent(s.counters, p.protocol, flows::size_of(p));
    alerts::law_tiers_bounded(s.alerts, s.raised(p, now, wall));
    if s.fed(p) {
        law_feeds_bounded(s.feeds, now, p);
    }
}

fn push_any(out: &mut Vec<Alert>, o: Option<Alert>)
    ensures
        alerts::alert_views(final(out)@) == alerts::alert_views(old(out)@) + if_any(watch::alert_opt(o)),
{
    match o {
        Some(a) => {
            let ghost v = a@;
            out.push(a);
            assert(alerts::alert_views(out@) =~= alerts::alert_views(old(out)@) + seq![v]);
        },
        None => {
            assert(alerts::alert_views(out@) =~= alerts::alert_views(old(out)@) + Seq::empty());
        },
    }
}

impl AppState {
    fn owner_name(&self, p: &CapturedPacket) -> (r: String)
        ensures
            r@ == self.traffic().owner(p@),
    {
        let port = match p.src_port {
            Some(a) => Some(a),
            None => p.dst_port,
        };
        match port {
            Some(n) => match self.process_cache.get(n, &p.protocol) {
                Some(name) => name,
                None => "--".to_owned(),
            },
            None => "--".to_owned(),
        }
    }

    fn sender_name(&self, p: &CapturedPacket) -> (r: Option<String>)
        ensures
            text::text_view(r) == process::known_name(self.process_cache@, self.traffic().sender_key(p@)),
    {
        let port: u16 = match p.src_port {
            Some(a) => a,
            None => 0,
        };
        self.process_cache.get(port, &p.protocol)
    }

    fn program_name(&self, p: &CapturedPacket) -> (r: String)
        ensures
            r@ == self.traffic().program(p@),
    {
        if let Some(name) = &p.process {
            if !same(name.as_str(), "unknown") {
                return name.as_str().to_owned();
            }
        }
        match self.sender_name(p) {
            Some(name) => name,
            None => "unknown".to_owned(),
        }
    }

    fn note_profiles(&mut self, p: &CapturedPacket, now: u64)
        requires
            profiles_room(old(self).traffic_profiles@, p@, now),
        ensures
            final(self).traffic_profiles@ == profiles_after(old(self).traffic_profiles@, p@, now),
            *final(self) == (AppState {
                traffic_profiles: final(self).traffic_profiles,
                ..*old(self)
            }),
    {
        let size: u64 = packet_size(p);
        if is_private_ip(&p.src_ip) {
            let mut profile = profile_now(&self.traffic_profiles, &p.src_ip, now);
            profile.send(&p.protocol, p.dst_ip, p.dst_port, size);
            self.traffic_profiles.insert(p.src_ip, profile);
        }
        if is_private_ip(&p.dst_ip) {
            let mut profile = profile_now(&self.traffic_profiles, &p.dst_ip, now);
            profile.download_bytes = profile.download_bytes + size;
            self.traffic_profiles.insert(p.dst_ip, profile);
        }
    }

    /// Holds a packet against the detectors.
    fn detect(&mut self, p: &CapturedPacket, now: u64, wall: u64, caller: &str) -> (r: Vec<Alert>)
        requires
            old(self).watch@.flood_room(p@, now),
        ensures
            final(self).watch@ == old(self).watch@.after_flood(p@, now).after_beacon(
                p@,
                now,
                caller@,
            ).after_scan(p@),
            *final(self) == (AppState { watch: final(self).watch, ..*old(self) }),
            alerts::alert_views(r@) == if_any(old(self).watch@.flood_alert(p@, now, wall)) + if_any(
                old(self).watch@.after_flood(p@, now).beacon_alert(p@, now, wall, caller@),
            ) + if_any(
                old(self).watch@.after_flood(p@, now).after_beacon(p@, now, caller@).scan_alert(
                    p@,
                    wall,
                ),
            ),
    {
        let mut out: Vec<Alert> = Vec::new();
        let flood = self.watch.check_flood(p, now, wall);
        push_any(&mut out, flood);
        assert(alerts::alert_views(out@) =~= if_any(old(self).watch@.flood_alert(p@, now, wall)));
        let beacon = self.watch.check_beacon(p, now, wall, caller);
        push_any(&mut out, beacon);
        let scan = self.watch.check_scan(p, wall);
        push_any(&mut out, scan);
        out
    }

    /// Counts a packet and learns from it.
    fn account(&mut self, pkt: &CapturedPacket, now: u64, owner: &str, program: &str) -> (r: (
        u64,
        u64,
    ))
        requires
            old(self).traffic().room(pkt@, now),
            owner@ == old(self).traffic().owner(pkt@),
            program@ == old(self).traffic().program(pkt@),
        ensures
            final(self).traffic() == (TrafficView {
                counters: old(self).counters@.with(pkt.protocol, flows::size_of(pkt@)),
                flows: old(self).traffic().flows_after(pkt@, now),
                names: old(self).names@.with(pkt@, old(self).devices.active_discovery@),
                profiles: profiles_after(old(self).traffic_profiles@, pkt@, now),
                nodes: old(self).traffic().nodes_after(pkt@, now),
                ..old(self).traffic()
            }),
            *final(self) == (AppState {
                counters: final(self).counters,
                flows: final(self).flows,
                names: final(self).names,
                traffic_profiles: final(self).traffic_profiles,
                graph: final(self).graph,
                ..*old(self)
            }),
            final(self).graph == (Graph {
                graph_nodes: final(self).graph.graph_nodes,
                ..old(self).graph
            }),
            (r.0 == 1) == old(self).traffic().opens(pkt@, now),
            r.1 == old(self).traffic().flows_after(pkt@, now).pair_packet_counts[(
                pkt.src_ip,
                pkt.dst_ip,
            )],
    {
        let size: u64 = packet_size(pkt);
        self.counters.add_packet(&pkt.protocol, size);
        let r: (u64, u64) = self.flows.record(pkt, now, owner, program);
        self.names.note(pkt, &self.devices.active_discovery);
        self.note_profiles(pkt, now);
        see_node(&mut self.graph.graph_nodes, pkt.src_ip, now);
        see_node(&mut self.graph.graph_nodes, pkt.dst_ip, now);
        r
    }

    /// Holds a packet against the rules.
    fn rule(&mut self, pkt: &CapturedPacket, context: &RuleContext, pair_count: u64) -> (r: Vec<
        Alert,
    >)
        ensures
            ({
                let pair = (pkt.src_ip, pkt.dst_ip);
                let much = pair_count >= HIGH_VOLUME
                    && !old(self).watch@.high_volume_alerted.contains(pair);
                &&& alerts::alert_views(r@) == rules::packet_alerts(pkt@, context@) + if_any(
                    if much { Some(rules::volume_alert(pkt.src_ip, pkt.dst_ip, context@)) } else { None },
                )
                &&& final(self).watch@ == (if much {
                    WatchView {
                        high_volume_alerted: old(self).watch@.high_volume_alerted.insert(pair),
                        ..old(self).watch@
                    }
                } else {
                    old(self).watch@
                })
            }),
            *final(self) == (AppState { watch: final(self).watch, ..*old(self) }),
            r@.len() <= 7,
    {
        proof {
            rules::lemma_packet_alerts_len(pkt@, context@);
        }
        let mut out = check_packet(pkt, context);
        let pair = (pkt.src_ip, pkt.dst_ip);
        let much = pair_count >= HIGH_VOLUME && !self.watch.high_volume_alerted.contains(&pair);
        if much {
            self.watch.high_volume_alerted.insert(pair);
            push_any(&mut out, Some(high_volume_alert(&pkt.src_ip, &pkt.dst_ip, context)));
        } else {
            push_any(&mut out, None);
        }
        assert(out@.len() == alerts::alert_views(out@).len());
        out
    }

    /// Notes first contacts and discovery.
    fn remark(&mut self, pkt: &CapturedPacket, context: &RuleContext, opens: bool) -> (r: Vec<Alert>)
        ensures
            ({
                let outside = !net::local_or_multicast(pkt.dst_ip) && opens
                    && !old(self).watch@.external_alerted.contains(pkt.dst_ip);
                &&& alerts::alert_views(r@) == if_any(
                    if outside {
                        Some(rules::contact_alert(pkt@, old(self).names@.org(pkt.dst_ip), context@))
                    } else {
                        None
                    },
                ) + if_any(
                    if rules::is_discovery(pkt@) && opens { Some(rules::discovery_alert(pkt@, context@)) } else {
                        None
                    },
                )
                &&& final(self).watch@ == (if outside {
                    WatchView {
                        external_alerted: old(self).watch@.external_alerted.insert(pkt.dst_ip),
                        ..old(self).watch@
                    }
                } else {
                    old(self).watch@
                })
            }),
            *final(self) == (AppState { watch: final(self).watch, ..*old(self) }),
            r@.len() <= 2,
    {
        let mut out: Vec<Alert> = Vec::new();
        assert(alerts::alert_views(out@) =~= Seq::empty());
        let outside = !is_local_or_multicast(&pkt.dst_ip) && opens
            && !self.watch.external_alerted.contains(&pkt.dst_ip);
        if outside {
            self.watch.external_alerted.insert(pkt.dst_ip);
            let alert = outbound_alert(pkt, self.names.org_of(&pkt.dst_ip), context);
            push_any(&mut out, Some(alert));
        } else {
            push_any(&mut out, None);
        }
        let ghost first = alerts::alert_views(out@);
        assert(Seq::<AlertView>::empty() + if_any(
            if outside {
                Some(rules::contact_alert(pkt@, old(self).names@.org(pkt.dst_ip), context@))
            } else {
                None
            },
        ) =~= first);
        if looks_for_hosts(pkt) && opens {
            push_any(&mut out, Some(local_discovery_alert(pkt, context)));
        } else {
            push_any(&mut out, None);
        }
        assert(out@.len() == alerts::alert_views(out@).len());
        out
    }

    /// Takes a packet into account: counts it, learns from it, and raises the
    /// alerts that it calls for. `now` is the time of the steady clock in
    /// nanoseconds, `wall` that of the wall clock.
    pub fn ingest_packet(&mut self, pkt: &CapturedPacket, now: u64, wall: u64)
        requires
            TrafficView::counts(pkt@) ==> old(self).traffic().room(pkt@, now),
        ensures
            !TrafficView::counts(pkt@) ==> *final(self) == *old(self),
            TrafficView::counts(pkt@) ==> old(self).traffic().ingested(
                pkt@,
                now,
                wall,
                final(self).traffic(),
            ),
            final(self).ui == old(self).ui,
            final(self).devices == old(self).devices,
            final(self).whitelist == old(self).whitelist,
            final(self).process_cache == old(self).process_cache,
            final(self).graph == (Graph {
                graph_nodes: final(self).graph.graph_nodes,
                ..old(self).graph
            }),
    {
        if is_noise_address(&pkt.src_ip) || is_noise_address(&pkt.dst_ip) {
            return;
        }
        let ghost s = self.traffic();
        let ghost p = pkt@;
        let owner = self.owner_name(pkt);
        let program = self.program_name(pkt);
        let caller = match self.sender_name(pkt) {
            Some(name) => name,
            None => String::new(),
        };
        let (packet_count, pair_count): (u64, u64) = self.account(
            pkt,
            now,
            owner.as_str(),
            program.as_str(),
        );
        assert(caller@ == s.caller(p));
        let mut raised = self.detect(pkt, now, wall, caller.as_str());
        assert(alerts::alert_views(raised@) == s.detected(p, now, wall));
        assert(raised@.len() == alerts::alert_views(raised@).len());
        if self.whitelist.contains(&pkt.src_ip) || self.whitelist.contains(&pkt.dst_ip) {
            self.alerts.push_all(raised);
            return;
        }
        let context = RuleContext {
            wall,
            program,
            dst_place: self.names.place_of(&pkt.dst_ip),
            src_place: self.names.place_of(&pkt.src_ip),
        };
        assert(context@ == s.context(p, wall));
        let ruled = self.rule(pkt, &context, pair_count);
        assert(alerts::alert_views(ruled@) == s.ruled(p, now, wall));
        assert(self.watch@ == s.watch_ruled(p, now));
        append_alerts(&mut raised, ruled);
        assert(raised@.len() == alerts::alert_views(raised@).len());
        if is_trusted_service(&pkt.src_ip, self.names.dns_cache.get(&pkt.src_ip))
            || is_trusted_service(&pkt.dst_ip, self.names.dns_cache.get(&pkt.dst_ip)) {
            assert(s.serviced(p));
            self.alerts.push_all(raised);
            return;
        }
        assert(!s.serviced(p));
        let noted = self.remark(pkt, &context, packet_count == 1);
        assert(alerts::alert_views(noted@) == s.noted(p, now, wall));
        assert(self.watch@ == s.watch_noted(p, now));
        append_alerts(&mut raised, noted);
        assert(raised@.len() == alerts::alert_views(raised@).len());
        self.alerts.push_all(raised);
        self.feeds.push(now, pkt);
        choose_host(&mut self.graph.graph_nodes, &self.flows.src_packet_counts);
    }

    /// Whether one more packet can be taken into account.
    pub fn has_room(&self, p: &CapturedPacket, now: u64) -> (r: bool)
        ensures
            r == self.traffic().room(p@, now),
    {
        let size: u64 = packet_size(p);
        let most: u64 = u64::MAX - MOST_ALERTS;
        if !(self.counters.has_room(size) && self.flows.has_room(p) && self.names.has_room(p)
            && self.watch.has_flood_room(p, now) && self.alerts.total <= most
            && self.alerts.total_suspicious <= most && self.alerts.total_behavioral <= most
            && self.alerts.total_external <= most && self.alerts.total_noise <= most) {
            return false;
        }
        let silenced = self.whitelist.contains(&p.src_ip) || self.whitelist.contains(&p.dst_ip);
        if !(silenced || self.names.is_place_readable(&p.src_ip) && self.names.is_place_readable(
            &p.dst_ip,
        )) {
            return false;
        }
        let mut sent: Option<TrafficProfile> = None;
        if is_private_ip(&p.src_ip) {
            let mut profile = profile_now(&self.traffic_profiles, &p.src_ip, now);
            let port_ok = match p.dst_port {
                Some(port) => match profile.port_counts.get(&port) {
                    Some(n) => *n < u32::MAX,
                    None => true,
                },
                None => true,
            };
            let count_ok = match p.protocol {
                Protocol::Tcp => profile.tcp_packets < u32::MAX,
                Protocol::Udp => profile.udp_packets < u32::MAX,
                _ => true,
            };
            if !(size <= u64::MAX - profile.upload_bytes && count_ok && port_ok) {
                return false;
            }
            profile.send(&p.protocol, p.dst_ip, p.dst_port, size);
            sent = Some(profile);
        }
        if is_private_ip(&p.dst_ip) {
            let received: u64 = match &sent {
                Some(profile) => if p.src_ip == p.dst_ip {
                    profile.download_bytes
                } else {
                    profile_now(&self.traffic_profiles, &p.dst_ip, now).download_bytes
                },
                None => profile_now(&self.traffic_profiles, &p.dst_ip, now).download_bytes,
            };
            if size > u64::MAX - received {
                return false;
            }
        }
        true
    }
}

} // verus!
