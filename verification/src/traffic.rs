//! Traffic counts: over all packets, per address, per connection, and the
//! profile by which the kind of a device is guessed.

use std::collections::VecDeque;
use vstd::prelude::*;
use vstd::string::*;

use crate::net::IpAddr;
use crate::packet::Protocol;
use crate::table::{Dup, Key, KeySet, Table};

verus! {

// ---------------------------------------------------------------------------
// Tables of counts
// ---------------------------------------------------------------------------

/// The count at a key; zero where there is none.
pub open spec fn count<K>(m: Map<K, u64>, k: K) -> u64 {
    if m.dom().contains(k) {
        m[k]
    } else {
        0
    }
}

/// The counts with `n` more at a key.
pub open spec fn counted<K>(m: Map<K, u64>, k: K, n: u64) -> Map<K, u64> {
    m.insert(k, (count(m, k) + n) as u64)
}

/// The values with one at a key, where there was none.
pub open spec fn first_kept<K, V>(m: Map<K, V>, k: K, v: V) -> Map<K, V> {
    if m.dom().contains(k) {
        m
    } else {
        m.insert(k, v)
    }
}

/// The count at a key.
pub fn count_at<K: Key>(t: &Table<K, u64>, k: &K) -> (r: u64)
    ensures
        r == count(t@, k@),
{
    match t.get(k) {
        Some(n) => *n,
        None => 0,
    }
}

/// Adds `n` to the count at a key and gives the new count.
pub fn add_count<K: Key>(t: &mut Table<K, u64>, k: K, n: u64) -> (r: u64)
    requires
        count(old(t)@, k@) + n <= u64::MAX,
    ensures
        final(t)@ == counted(old(t)@, k@, n),
        r == count(old(t)@, k@) + n,
{
    let c: u64 = count_at(t, &k) + n;
    t.insert(k, c);
    c
}

/// Notes a value at a key, where there is none.
pub fn keep_first<K: Key>(t: &mut Table<K, u64>, k: K, v: u64)
    ensures
        final(t)@ == first_kept(old(t)@, k@, v),
{
    if !t.contains_key(&k) {
        t.insert(k, v);
    }
}

// ---------------------------------------------------------------------------
// Counts over all packets
// ---------------------------------------------------------------------------

/// The number of seconds of which the traffic is remembered.
pub const HISTORY: usize = 30;

/// Nanoseconds in a second.
pub const SECOND: u64 = 1_000_000_000;

/// Counts over all packets, and the traffic of the last seconds.
pub struct Counters {
    pub tcp_count: u64,
    pub udp_count: u64,
    pub icmp_count: u64,
    pub total_packets: u64,
    pub total_bytes: u64,
    /// The bytes of each of the last seconds, oldest first.
    pub bytes_history: VecDeque<u64>,
    pub current_second_bytes: u64,
    pub current_second_packets: u64,
    pub packets_per_sec: u64,
    /// When the present second began, in nanoseconds of the steady clock.
    pub last_tick: u64,
}

/// Counts over all packets.
pub struct CountersView {
    pub tcp_count: u64,
    pub udp_count: u64,
    pub icmp_count: u64,
    pub total_packets: u64,
    pub total_bytes: u64,
    pub bytes_history: Seq<u64>,
    pub current_second_bytes: u64,
    pub current_second_packets: u64,
    pub packets_per_sec: u64,
    pub last_tick: u64,
}

impl View for Counters {
    type V = CountersView;

    open spec fn view(&self) -> CountersView {
        CountersView {
            tcp_count: self.tcp_count,
            udp_count: self.udp_count,
            icmp_count: self.icmp_count,
            total_packets: self.total_packets,
            total_bytes: self.total_bytes,
            bytes_history: self.bytes_history@,
            current_second_bytes: self.current_second_bytes,
            current_second_packets: self.current_second_packets,
            packets_per_sec: self.packets_per_sec,
            last_tick: self.last_tick,
        }
    }
}

/// One more.
pub open spec fn plus_one(n: u64) -> u64 {
    (n + 1) as u64
}

/// `n` more.
pub open spec fn plus(m: u64, n: u64) -> u64 {
    (m + n) as u64
}

impl CountersView {
    /// One more packet of a size can be counted.
    pub open spec fn room(self, size: u64) -> bool {
        &&& self.tcp_count < u64::MAX
        &&& self.udp_count < u64::MAX
        &&& self.icmp_count < u64::MAX
        &&& self.total_packets < u64::MAX
        &&& self.total_bytes + size <= u64::MAX
        &&& self.current_second_packets < u64::MAX
        &&& self.current_second_bytes + size <= u64::MAX
    }

    /// The counts with one more packet.
    pub open spec fn with(self, protocol: Protocol, size: u64) -> CountersView {
        CountersView {
            tcp_count: if protocol == Protocol::Tcp { plus_one(self.tcp_count) } else {
                self.tcp_count
            },
            udp_count: if protocol == Protocol::Udp { plus_one(self.udp_count) } else {
                self.udp_count
            },
            icmp_count: if protocol == Protocol::Icmp { plus_one(self.icmp_count) } else {
                self.icmp_count
            },
            total_packets: plus_one(self.total_packets),
            total_bytes: plus(self.total_bytes, size),
            current_second_bytes: plus(self.current_second_bytes, size),
            current_second_packets: plus_one(self.current_second_packets),
            ..self
        }
    }

    /// The counts when time has come to `now`: a second that is over goes into
    /// the history.
    pub open spec fn ticked(self, now: u64) -> CountersView {
        if now >= self.last_tick && now - self.last_tick >= SECOND {
            let history = self.bytes_history.push(self.current_second_bytes);
            CountersView {
                bytes_history: if history.len() > HISTORY { history.drop_first() } else { history },
                packets_per_sec: self.current_second_packets,
                current_second_bytes: 0,
                current_second_packets: 0,
                last_tick: now,
                ..self
            }
        } else {
            self
        }
    }

    /// The packets of each protocol are among all packets.
    pub open spec fn consistent(self) -> bool {
        self.tcp_count + self.udp_count + self.icmp_count <= self.total_packets
    }
}

/// The packets of the protocols are never more than all packets.
pub proof fn law_counts_consistent(c: CountersView, protocol: Protocol, size: u64)
    requires
        c.consistent(),
        c.room(size),
    ensures
        c.with(protocol, size).consistent(),
{
}

/// The history never covers more than its number of seconds.
pub proof fn law_history_bounded(c: CountersView, now: u64)
    requires
        c.bytes_history.len() <= HISTORY,
    ensures
        c.ticked(now).bytes_history.len() <= HISTORY,
{
}

/// A second that is over loses no byte: its count goes into the history.
pub proof fn law_second_recorded(c: CountersView, now: u64)
    requires
        now >= c.last_tick + SECOND,
    ensures
        c.ticked(now).bytes_history.last() == c.current_second_bytes,
        c.ticked(now).current_second_bytes == 0,
        c.ticked(now).packets_per_sec == c.current_second_packets,
{
}

impl Counters {
    /// No packets yet.
    pub fn new(now: u64) -> (r: Counters)
        ensures
            r@ == no_counts(now),
    {
        let r = Counters {
            tcp_count: 0,
            udp_count: 0,
            icmp_count: 0,
            total_packets: 0,
            total_bytes: 0,
            bytes_history: VecDeque::new(),
            current_second_bytes: 0,
            current_second_packets: 0,
            packets_per_sec: 0,
            last_tick: now,
        };
        assert(r@.bytes_history =~= Seq::empty());
        r
    }

    /// Whether one more packet of a size can be counted.
    pub fn has_room(&self, size: u64) -> (r: bool)
        ensures
            r == self@.room(size),
    {
        self.tcp_count < u64::MAX && self.udp_count < u64::MAX && self.icmp_count < u64::MAX
            && self.total_packets < u64::MAX && size <= u64::MAX - self.total_bytes
            && self.current_second_packets < u64::MAX && size <= u64::MAX
            - self.current_second_bytes
    }

    /// Counts one more packet.
    pub fn add_packet(&mut self, protocol: &Protocol, size: u64)
        requires
            old(self)@.room(size),
        ensures
            final(self)@ == old(self)@.with(*protocol, size),
    {
        match protocol {
            Protocol::Tcp => {
                self.tcp_count = self.tcp_count + 1;
            },
            Protocol::Udp => {
                self.udp_count = self.udp_count + 1;
            },
            Protocol::Icmp => {
                self.icmp_count = self.icmp_count + 1;
            },
            Protocol::Unknown(_) => {},
        }
        self.total_packets = self.total_packets + 1;
        self.total_bytes = self.total_bytes + size;
        self.current_second_bytes = self.current_second_bytes + size;
        self.current_second_packets = self.current_second_packets + 1;
    }

    /// Closes the present second, if it is over.
    pub fn tick(&mut self, now: u64)
        ensures
            final(self)@ == old(self)@.ticked(now),
    {
        if now >= self.last_tick && now - self.last_tick >= SECOND {
            self.bytes_history.push_back(self.current_second_bytes);
            assert(self.bytes_history@ =~= old(self).bytes_history@.push(
                old(self).current_second_bytes,
            ));
            if self.bytes_history.len() > HISTORY {
                let gone = self.bytes_history.pop_front();
                assert(self.bytes_history@ =~= old(self).bytes_history@.push(
                    old(self).current_second_bytes,
                ).drop_first());
            }
            self.packets_per_sec = self.current_second_packets;
            self.current_second_bytes = 0;
            self.current_second_packets = 0;
            self.last_tick = now;
        }
    }
}

/// No packets yet.
pub open spec fn no_counts(now: u64) -> CountersView {
    CountersView {
        tcp_count: 0,
        udp_count: 0,
        icmp_count: 0,
        total_packets: 0,
        total_bytes: 0,
        bytes_history: Seq::empty(),
        current_second_bytes: 0,
        current_second_packets: 0,
        packets_per_sec: 0,
        last_tick: now,
    }
}

// ---------------------------------------------------------------------------
// Traffic profiles
// ---------------------------------------------------------------------------

/// How long a traffic profile is kept before it begins anew.
pub const PROFILE_SPAN: u64 = 60_000_000_000;

/// What a device sent and received lately.
pub struct TrafficProfile {
    pub upload_bytes: u64,
    pub download_bytes: u64,
    pub tcp_packets: u32,
    pub udp_packets: u32,
    pub unique_dsts: KeySet<IpAddr>,
    pub port_counts: Table<u16, u32>,
    pub last_reset: u64,
}

/// What a device sent and received lately.
pub struct ProfileView {
    pub upload_bytes: u64,
    pub download_bytes: u64,
    pub tcp_packets: u32,
    pub udp_packets: u32,
    pub unique_dsts: Set<IpAddr>,
    pub port_counts: Map<u16, u32>,
    pub last_reset: u64,
}

impl View for TrafficProfile {
    type V = ProfileView;

    open spec fn view(&self) -> ProfileView {
        ProfileView {
            upload_bytes: self.upload_bytes,
            download_bytes: self.download_bytes,
            tcp_packets: self.tcp_packets,
            udp_packets: self.udp_packets,
            unique_dsts: self.unique_dsts@,
            port_counts: self.port_counts@,
            last_reset: self.last_reset,
        }
    }
}

/// A profile without traffic.
pub open spec fn fresh_profile(now: u64) -> ProfileView {
    ProfileView {
        upload_bytes: 0,
        download_bytes: 0,
        tcp_packets: 0,
        udp_packets: 0,
        unique_dsts: Set::empty(),
        port_counts: Map::empty(),
        last_reset: now,
    }
}

/// The number of packets to a port.
pub open spec fn port_count(m: Map<u16, u32>, port: u16) -> u32 {
    if m.dom().contains(port) {
        m[port]
    } else {
        0
    }
}

/// One more.
pub open spec fn plus_one32(n: u32) -> u32 {
    (n + 1) as u32
}

/// The profile that counts at `now`: one that is too old begins anew.
pub open spec fn current_profile(m: Map<IpAddr, ProfileView>, ip: IpAddr, now: u64) -> ProfileView {
    if !m.dom().contains(ip) || now > m[ip].last_reset && now - m[ip].last_reset > PROFILE_SPAN {
        fresh_profile(now)
    } else {
        m[ip]
    }
}

impl ProfileView {
    /// One more packet can be counted as sent.
    pub open spec fn room_up(self, protocol: Protocol, port: Option<u16>, size: u64) -> bool {
        &&& self.upload_bytes + size <= u64::MAX
        &&& protocol == Protocol::Tcp ==> self.tcp_packets < u32::MAX
        &&& protocol == Protocol::Udp ==> self.udp_packets < u32::MAX
        &&& port is Some ==> port_count(self.port_counts, port->0) < u32::MAX
    }

    /// The profile with one more packet sent.
    pub open spec fn sent(
        self,
        protocol: Protocol,
        dst: IpAddr,
        port: Option<u16>,
        size: u64,
    ) -> ProfileView {
        ProfileView {
            upload_bytes: plus(self.upload_bytes, size),
            tcp_packets: if protocol == Protocol::Tcp { plus_one32(self.tcp_packets) } else {
                self.tcp_packets
            },
            udp_packets: if protocol == Protocol::Udp { plus_one32(self.udp_packets) } else {
                self.udp_packets
            },
            port_counts: match port {
                Some(p) => self.port_counts.insert(p, plus_one32(port_count(self.port_counts, p))),
                None => self.port_counts,
            },
            unique_dsts: self.unique_dsts.insert(dst),
            ..self
        }
    }

    /// The profile with one more packet received.
    pub open spec fn received(self, size: u64) -> ProfileView {
        ProfileView { download_bytes: plus(self.download_bytes, size), ..self }
    }
}

impl TrafficProfile {
    /// A profile without traffic.
    pub fn new(now: u64) -> (r: TrafficProfile)
        ensures
            r@ == fresh_profile(now),
    {
        TrafficProfile {
            upload_bytes: 0,
            download_bytes: 0,
            tcp_packets: 0,
            udp_packets: 0,
            unique_dsts: KeySet::new(),
            port_counts: Table::new(),
            last_reset: now,
        }
    }

    /// Counts one more packet as sent.
    pub fn send(&mut self, protocol: &Protocol, dst: IpAddr, port: Option<u16>, size: u64)
        requires
            old(self)@.room_up(*protocol, port, size),
        ensures
            final(self)@ == old(self)@.sent(*protocol, dst, port, size),
    {
        self.upload_bytes = self.upload_bytes + size;
        match protocol {
            Protocol::Tcp => {
                self.tcp_packets = self.tcp_packets + 1;
            },
            Protocol::Udp => {
                self.udp_packets = self.udp_packets + 1;
            },
            _ => {},
        }
        if let Some(p) = port {
            let n: u32 = match self.port_counts.get(&p) {
                Some(c) => *c,
                None => 0,
            };
            self.port_counts.insert(p, n + 1);
        }
        self.unique_dsts.insert(dst);
    }
}

impl Dup for u32 {
    fn dup(&self) -> (r: Self) {
        *self
    }
}

impl Dup for u16 {
    fn dup(&self) -> (r: Self) {
        *self
    }
}

impl Dup for IpAddr {
    fn dup(&self) -> (r: Self) {
        *self
    }
}

impl Dup for TrafficProfile {
    fn dup(&self) -> (r: Self) {
        TrafficProfile {
            upload_bytes: self.upload_bytes,
            download_bytes: self.download_bytes,
            tcp_packets: self.tcp_packets,
            udp_packets: self.udp_packets,
            unique_dsts: self.unique_dsts.dup(),
            port_counts: self.port_counts.dup(),
            last_reset: self.last_reset,
        }
    }
}

/// The profile of an address that counts at `now`.
pub fn profile_now(t: &Table<IpAddr, TrafficProfile>, ip: &IpAddr, now: u64) -> (r: TrafficProfile)
    ensures
        r@ == current_profile(t@, *ip, now),
{
    match t.get(ip) {
        Some(p) => if now > p.last_reset && now - p.last_reset > PROFILE_SPAN {
            TrafficProfile::new(now)
        } else {
            p.dup()
        },
        None => TrafficProfile::new(now),
    }
}

/// The packets to the ports that games use.
pub open spec fn game_packets(m: Map<u16, u32>) -> int {
    port_count(m, 3074) + port_count(m, 3478) + port_count(m, 3479) + port_count(m, 3480)
        + port_count(m, 9307)
}

/// What kind of device has such a profile: a camera that streams out, a
/// console that plays, a player that streams in, or a sensor.
pub open spec fn device_type(p: ProfileView) -> Option<Seq<char>> {
    let total = p.tcp_packets + p.udp_packets;
    if total < 3 {
        None
    } else if port_count(p.port_counts, 554) + port_count(p.port_counts, 8554) > 5 && 2
        * p.udp_packets > total && p.upload_bytes > 50_000 {
        Some("CAM"@)
    } else if game_packets(p.port_counts) > 10 && 5 * p.udp_packets > 2 * total {
        Some("GME"@)
    } else if p.download_bytes > 500_000 && p.unique_dsts.len() <= 5 {
        Some("STR"@)
    } else if total < 15 && p.upload_bytes < 5_000 && p.download_bytes < 5_000
        && p.unique_dsts.len() <= 2 {
        Some("IoT"@)
    } else {
        None
    }
}

fn packets_to(p: &TrafficProfile, port: u16) -> (r: u64)
    ensures
        r == port_count(p@.port_counts, port),
        r <= u32::MAX,
{
    match p.port_counts.get(&port) {
        Some(n) => *n as u64,
        None => 0,
    }
}

/// What kind of device has such a profile.
pub fn classify_device_type(profile: &TrafficProfile) -> (r: Option<&'static str>)
    ensures
        match r {
            Some(s) => device_type(profile@) == Some(s@),
            None => device_type(profile@) is None,
        },
{
    let udp: u64 = profile.udp_packets as u64;
    let total: u64 = profile.tcp_packets as u64 + udp;
    let dsts: usize = profile.unique_dsts.len();
    if total < 3 {
        return None;
    }
    if packets_to(profile, 554) + packets_to(profile, 8554) > 5 && 2 * udp > total
        && profile.upload_bytes > 50_000 {
        return Some("CAM");
    }
    let game: u64 = packets_to(profile, 3074) + packets_to(profile, 3478) + packets_to(
        profile,
        3479,
    ) + packets_to(profile, 3480) + packets_to(profile, 9307);
    if game > 10 && 5 * udp > 2 * total {
        return Some("GME");
    }
    if profile.download_bytes > 500_000 && dsts <= 5 {
        return Some("STR");
    }
    if total < 15 && profile.upload_bytes < 5_000 && profile.download_bytes < 5_000 && dsts <= 2 {
        return Some("IoT");
    }
    None
}

/// What the traffic of a device tells of it. `all` are its packets; from three
/// packets on it is a camera when it streams on ports 554 or 8554, a console
/// when it uses ports of games, a player when it gets much from few, and a
/// small thing when it does next to nothing.
pub proof fn law_traffic_tells_device(p: ProfileView, all: int)
    requires
        all == p.tcp_packets + p.udp_packets,
    ensures
        ({
            let streams = port_count(p.port_counts, 554) + port_count(p.port_counts, 8554);
            let games = port_count(p.port_counts, 3074) + port_count(p.port_counts, 3478)
                + port_count(p.port_counts, 3479) + port_count(p.port_counts, 3480) + port_count(
                p.port_counts,
                9307,
            );
            let camera = streams >= 6 && 2 * p.udp_packets >= all + 1 && p.upload_bytes >= 50_001;
            let console = games >= 11 && 10 * p.udp_packets >= 4 * all + 1;
            let player = p.download_bytes >= 500_001 && p.unique_dsts.len() < 6;
            let thing = all <= 14 && p.upload_bytes <= 4_999 && p.download_bytes <= 4_999
                && p.unique_dsts.len() < 3;
            &&& all <= 2 ==> device_type(p) is None
            &&& all >= 3 && camera ==> device_type(p) == Some("CAM"@)
            &&& all >= 3 && !camera && console ==> device_type(p) == Some("GME"@)
            &&& all >= 3 && !camera && !console && player ==> device_type(p) == Some("STR"@)
            &&& all >= 3 && !camera && !console && !player && thing ==> device_type(p) == Some(
                "IoT"@,
            )
            &&& !camera && !console && !player && !thing ==> device_type(p) is None
        }),
{
}

/// A profile counts for a minute; what comes later begins a new one.
pub proof fn law_profile_lasts_a_minute(m: Map<IpAddr, ProfileView>, ip: IpAddr, now: u64)
    ensures
        m.dom().contains(ip) && m[ip].last_reset <= now <= m[ip].last_reset + 60_000_000_000
            ==> current_profile(m, ip, now) == m[ip],
        !m.dom().contains(ip) || now > m[ip].last_reset + 60_000_000_000 ==> {
            let f = current_profile(m, ip, now);
            &&& f.upload_bytes == 0
            &&& f.download_bytes == 0
            &&& f.tcp_packets == 0
            &&& f.udp_packets == 0
            &&& f.unique_dsts =~= Set::<IpAddr>::empty()
            &&& f.port_counts =~= Map::<u16, u32>::empty()
            &&& f.last_reset == now
        },
{
}

/// What was counted in a second is recorded when the second is over, the last
/// thirty of them, and counting begins anew.
pub proof fn law_seconds_recorded(c: CountersView, now: u64)
    ensures
        now < c.last_tick + 1_000_000_000 ==> c.ticked(now) == c,
        now >= c.last_tick + 1_000_000_000 ==> {
            let t = c.ticked(now);
            &&& t.packets_per_sec == c.current_second_packets
            &&& t.current_second_packets == 0
            &&& t.current_second_bytes == 0
            &&& t.last_tick == now
            &&& t.bytes_history.len() > 0 && t.bytes_history.last() == c.current_second_bytes
            &&& c.bytes_history.len() < 30 ==> t.bytes_history == c.bytes_history.push(
                c.current_second_bytes,
            )
            &&& c.bytes_history.len() == 30 ==> t.bytes_history == c.bytes_history.skip(1).push(
                c.current_second_bytes,
            )
            &&& t.total_packets == c.total_packets
            &&& t.total_bytes == c.total_bytes
            &&& t.tcp_count == c.tcp_count
            &&& t.udp_count == c.udp_count
        },
{
}

} // verus!
