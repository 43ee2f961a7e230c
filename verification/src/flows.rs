//! Who talks to whom: bytes and packets per address, per pair of addresses and
//! per connection.

use vstd::prelude::*;
use vstd::string::*;

use crate::formatting;
use crate::net::IpAddr;
use crate::packet::{CapturedPacket, PacketView, Protocol};
use crate::table::{Key, KeySet, Table};
use crate::text;
use crate::text::{copy_text, same};
use crate::traffic;
use crate::traffic::{add_count, count_at, keep_first};

verus! {

/// What tells connections apart: the two addresses and the port that is asked for.
#[derive(Clone, Copy, Debug)]
pub struct ConnKey {
    pub src: IpAddr,
    pub dst: IpAddr,
    pub port: Option<u16>,
}

impl View for ConnKey {
    type V = ConnKey;

    open spec fn view(&self) -> ConnKey {
        *self
    }
}

impl Key for ConnKey {
    fn same_key(&self, other: &Self) -> (r: bool) {
        let ports = match (self.port, other.port) {
            (Some(a), Some(b)) => a == b,
            (None, None) => true,
            _ => false,
        };
        self.src == other.src && self.dst == other.dst && ports
    }
}

/// What a connection has carried so far.
pub struct Conn {
    pub packets: u64,
    pub bytes: u64,
    pub process: Option<String>,
    /// How long the connection has been seen, in nanoseconds.
    pub duration: u64,
}

/// What a connection has carried so far.
pub struct ConnView {
    pub packets: u64,
    pub bytes: u64,
    pub process: Option<Seq<char>>,
    pub duration: u64,
}

impl View for Conn {
    type V = ConnView;

    open spec fn view(&self) -> ConnView {
        ConnView {
            packets: self.packets,
            bytes: self.bytes,
            process: text::text_view(self.process),
            duration: self.duration,
        }
    }
}

/// Who talks to whom.
pub struct Flows {
    pub dest_bytes: Table<IpAddr, u64>,
    pub connections: Table<ConnKey, Conn>,
    pub connection_first_seen: Table<ConnKey, u64>,
    pub unique_ips: KeySet<IpAddr>,
    pub src_packet_counts: Table<IpAddr, u64>,
    pub pair_packet_counts: Table<(IpAddr, IpAddr), u64>,
    pub edge_last_seen: Table<(IpAddr, IpAddr), u64>,
    pub edge_first_seen: Table<(IpAddr, IpAddr), u64>,
    /// The protocol and the program of the last packet of an address.
    pub node_last_seen_details: Table<IpAddr, (String, String)>,
}

/// Who talks to whom.
pub struct FlowsView {
    pub dest_bytes: Map<IpAddr, u64>,
    pub connections: Map<ConnKey, ConnView>,
    pub connection_first_seen: Map<ConnKey, u64>,
    pub unique_ips: Set<IpAddr>,
    pub src_packet_counts: Map<IpAddr, u64>,
    pub pair_packet_counts: Map<(IpAddr, IpAddr), u64>,
    pub edge_last_seen: Map<(IpAddr, IpAddr), u64>,
    pub edge_first_seen: Map<(IpAddr, IpAddr), u64>,
    pub node_last_seen_details: Map<IpAddr, (Seq<char>, Seq<char>)>,
}

impl View for Flows {
    type V = FlowsView;

    open spec fn view(&self) -> FlowsView {
        FlowsView {
            dest_bytes: self.dest_bytes@,
            connections: self.connections@,
            connection_first_seen: self.connection_first_seen@,
            unique_ips: self.unique_ips@,
            src_packet_counts: self.src_packet_counts@,
            pair_packet_counts: self.pair_packet_counts@,
            edge_last_seen: self.edge_last_seen@,
            edge_first_seen: self.edge_first_seen@,
            node_last_seen_details: self.node_last_seen_details@,
        }
    }
}

/// The connection that a packet belongs to.
pub open spec fn conn_key(p: PacketView) -> ConnKey {
    ConnKey { src: p.src_ip, dst: p.dst_ip, port: p.dst_port }
}

/// The size of a packet.
pub open spec fn size_of(p: PacketView) -> u64 {
    p.size as u64
}

/// The connection at a key; an empty one where there is none.
pub open spec fn conn_at(m: Map<ConnKey, ConnView>, k: ConnKey) -> ConnView {
    if m.dom().contains(k) {
        m[k]
    } else {
        ConnView { packets: 0, bytes: 0, process: None, duration: 0 }
    }
}

/// A connection with one more packet. Its program is the first one that was
/// found for it.
pub open spec fn conn_with(c: ConnView, size: u64, program: Seq<char>, duration: u64) -> ConnView {
    ConnView {
        packets: traffic::plus_one(c.packets),
        bytes: traffic::plus(c.bytes, size),
        process: if c.process is None || c.process == Some("unknown"@) {
            Some(program)
        } else {
            c.process
        },
        duration,
    }
}

/// The name of a protocol as details of an address show it.
pub open spec fn short_protocol(p: Protocol) -> Seq<char> {
    match p {
        Protocol::Tcp => "TCP"@,
        Protocol::Udp => "UDP"@,
        Protocol::Icmp => "ICMP"@,
        Protocol::Unknown(_) => "Unknown"@,
    }
}

fn short_name(p: &Protocol) -> (r: &'static str)
    ensures
        r@ == short_protocol(*p),
{
    match p {
        Protocol::Tcp => "TCP",
        Protocol::Udp => "UDP",
        Protocol::Icmp => "ICMP",
        Protocol::Unknown(_) => "Unknown",
    }
}

impl FlowsView {
    /// One more packet can be counted.
    pub open spec fn room(self, p: PacketView) -> bool {
        let c = conn_at(self.connections, conn_key(p));
        &&& traffic::count(self.dest_bytes, p.dst_ip) + size_of(p) <= u64::MAX
        &&& c.packets < u64::MAX
        &&& c.bytes + size_of(p) <= u64::MAX
        &&& traffic::count(self.src_packet_counts, p.src_ip) < u64::MAX
        &&& traffic::count(self.pair_packet_counts, (p.src_ip, p.dst_ip)) < u64::MAX
    }

    /// How long the connection of a packet has been seen at `now`.
    pub open spec fn age(self, p: PacketView, now: u64) -> u64 {
        formatting::since(now, traffic::first_kept(self.connection_first_seen, conn_key(p), now)[conn_key(p)])
    }

    /// The flows with one more packet. `owner` is the program shown for the two
    /// addresses, `program` the one noted for the connection.
    pub open spec fn with(
        self,
        p: PacketView,
        now: u64,
        owner: Seq<char>,
        program: Seq<char>,
    ) -> FlowsView {
        let pair = (p.src_ip, p.dst_ip);
        let details = (short_protocol(p.protocol), owner);
        FlowsView {
            dest_bytes: traffic::counted(self.dest_bytes, p.dst_ip, size_of(p)),
            connections: self.connections.insert(
                conn_key(p),
                conn_with(
                    conn_at(self.connections, conn_key(p)),
                    size_of(p),
                    program,
                    self.age(p, now),
                ),
            ),
            connection_first_seen: traffic::first_kept(self.connection_first_seen, conn_key(p), now),
            unique_ips: self.unique_ips.insert(p.src_ip).insert(p.dst_ip),
            src_packet_counts: traffic::counted(self.src_packet_counts, p.src_ip, 1),
            pair_packet_counts: traffic::counted(self.pair_packet_counts, pair, 1),
            edge_last_seen: self.edge_last_seen.insert(pair, now),
            edge_first_seen: traffic::first_kept(self.edge_first_seen, pair, now),
            node_last_seen_details: self.node_last_seen_details.insert(p.src_ip, details).insert(
                p.dst_ip,
                details,
            ),
        }
    }
}

/// The two addresses of a packet are known afterwards, and no address is
/// forgotten.
pub proof fn law_addresses_remembered(
    f: FlowsView,
    p: PacketView,
    now: u64,
    owner: Seq<char>,
    program: Seq<char>,
)
    ensures
        f.with(p, now, owner, program).unique_ips.contains(p.src_ip),
        f.with(p, now, owner, program).unique_ips.contains(p.dst_ip),
        f.unique_ips.subset_of(f.with(p, now, owner, program).unique_ips),
{
}

/// A packet changes no connection but its own.
pub proof fn law_other_connections_stay(
    f: FlowsView,
    p: PacketView,
    now: u64,
    owner: Seq<char>,
    program: Seq<char>,
    other: ConnKey,
)
    requires
        other != conn_key(p),
    ensures
        f.with(p, now, owner, program).connections.dom().contains(other)
            == f.connections.dom().contains(other),
        f.connections.dom().contains(other) ==> f.with(
            p,
            now,
            owner,
            program,
        ).connections[other] == f.connections[other],
{
}

/// The size of a packet.
pub fn packet_size(p: &CapturedPacket) -> (r: u64)
    ensures
        r == size_of(p@),
{
    p.size as u64
}

/// No flows yet.
pub open spec fn no_flows() -> FlowsView {
    FlowsView {
        dest_bytes: Map::empty(),
        connections: Map::empty(),
        connection_first_seen: Map::empty(),
        unique_ips: Set::empty(),
        src_packet_counts: Map::empty(),
        pair_packet_counts: Map::empty(),
        edge_last_seen: Map::empty(),
        edge_first_seen: Map::empty(),
        node_last_seen_details: Map::empty(),
    }
}

impl Flows {
    /// No flows yet.
    pub fn new() -> (r: Flows)
        ensures
            r@ == no_flows(),
    {
        Flows {
            dest_bytes: Table::new(),
            connections: Table::new(),
            connection_first_seen: Table::new(),
            unique_ips: KeySet::new(),
            src_packet_counts: Table::new(),
            pair_packet_counts: Table::new(),
            edge_last_seen: Table::new(),
            edge_first_seen: Table::new(),
            node_last_seen_details: Table::new(),
        }
    }

    /// Whether one more packet can be counted.
    pub fn has_room(&self, p: &CapturedPacket) -> (r: bool)
        ensures
            r == self@.room(p@),
    {
        let size: u64 = packet_size(p);
        let key = ConnKey { src: p.src_ip, dst: p.dst_ip, port: p.dst_port };
        let conn = match self.connections.get(&key) {
            Some(c) => c.packets < u64::MAX && size <= u64::MAX - c.bytes,
            None => true,
        };
        conn && size <= u64::MAX - count_at(&self.dest_bytes, &p.dst_ip) && count_at(
            &self.src_packet_counts,
            &p.src_ip,
        ) < u64::MAX && count_at(&self.pair_packet_counts, &(p.src_ip, p.dst_ip)) < u64::MAX
    }

    /// Counts one more packet. Gives the number of packets of its connection
    /// and of its pair of addresses.
    pub fn record(&mut self, p: &CapturedPacket, now: u64, owner: &str, program: &str) -> (r: (
        u64,
        u64,
    ))
        requires
            old(self)@.room(p@),
        ensures
            final(self)@ == old(self)@.with(p@, now, owner@, program@),
            r.0 == final(self)@.connections[conn_key(p@)].packets,
            r.1 == final(self)@.pair_packet_counts[(p.src_ip, p.dst_ip)],
    {
        let size: u64 = packet_size(p);
        let pair = (p.src_ip, p.dst_ip);
        self.edge_last_seen.insert(pair, now);
        keep_first(&mut self.edge_first_seen, pair, now);
        let name = short_name(&p.protocol);
        self.node_last_seen_details.insert(p.src_ip, (name.to_owned(), owner.to_owned()));
        self.node_last_seen_details.insert(p.dst_ip, (name.to_owned(), owner.to_owned()));
        let _ = add_count(&mut self.dest_bytes, p.dst_ip, size);
        let key = ConnKey { src: p.src_ip, dst: p.dst_ip, port: p.dst_port };
        keep_first(&mut self.connection_first_seen, key, now);
        let first: u64 = count_at(&self.connection_first_seen, &key);
        let mut packets: u64 = 0;
        let mut bytes: u64 = 0;
        let mut process: Option<String> = None;
        if let Some(c) = self.connections.get(&key) {
            packets = c.packets;
            bytes = c.bytes;
            process = copy_text(&c.process);
        }
        let unknown = match &process {
            None => true,
            Some(s) => same(s.as_str(), "unknown"),
        };
        if unknown {
            process = Some(program.to_owned());
        }
        let conn = Conn {
            packets: packets + 1,
            bytes: bytes + size,
            process,
            duration: now.saturating_sub(first),
        };
        self.connections.insert(key, conn);
        self.unique_ips.insert(p.src_ip);
        self.unique_ips.insert(p.dst_ip);
        let _ = add_count(&mut self.src_packet_counts, p.src_ip, 1);
        let pairs: u64 = add_count(&mut self.pair_packet_counts, pair, 1);
        (packets + 1, pairs)
    }
}

} // verus!
