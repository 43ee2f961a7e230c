//! A scan of the network: the devices that it finds, step by step, and how
//! they are merged with those that were known.

use vstd::prelude::*;
use vstd::string::*;

use crate::announce;
use crate::arp;
use crate::arp::{Neighbour, STALE, read_neighbour};
use crate::board::{DetailsBoard, DeviceBoard};
use crate::device;
use crate::device::{DetailsView, DeviceDetails, DeviceInfo, InfoView};
use crate::hostname::DASH;
use crate::naming;
use crate::naming::{is_link_local, should_resolve_hostname};
use crate::net;
use crate::net::{IpAddr, ip_string, is_local_ip};
use crate::radar;
use crate::radar::key_addresses;
use crate::state;
use crate::state::is_outside_baseline;
use crate::table::{Dup, KeySet, Table};
use crate::text;
use crate::text::{dec_text, has_part, lower_case, same};
use crate::traffic;
use crate::vendor;
use crate::vendor::{VendorList, try_get_vendor};

verus! {

/// The name of a device whose name is being looked for.
pub const RESOLVING: &'static str = "Resolving...";

/// A name that stands for none.
pub open spec fn no_name(name: Seq<char>) -> bool {
    name == RESOLVING@ || name == DASH@
}

/// Whether a name stands for none.
pub fn is_no_name(name: &str) -> (r: bool)
    ensures
        r == no_name(name@),
{
    same(name, RESOLVING) || same(name, DASH)
}

/// A maker that is not known.
pub open spec fn no_maker(vendor: Seq<char>) -> bool {
    vendor == "Unknown"@ || vendor == "Randomized MAC"@
}

/// Whether a maker is not known.
pub fn is_no_maker(vendor: &str) -> (r: bool)
    ensures
        r == no_maker(vendor@),
{
    same(vendor, "Unknown") || same(vendor, "Randomized MAC")
}

// ---------------------------------------------------------------------------
// Details
// ---------------------------------------------------------------------------

/// What is known of a device together with what was learned of it: what was
/// learned counts where both say something.
pub open spec fn merged(known: DetailsView, learned: DetailsView) -> DetailsView {
    DetailsView {
        services: known.services.union(learned.services),
        properties: known.properties.union_prefer_right(learned.properties),
    }
}

/// Adds what was learned of a device to what is known of it.
pub fn merge_details(known: &mut DeviceDetails, learned: &DeviceDetails)
    ensures
        final(known)@ == merged(old(known)@, learned@),
{
    let ghost start = known@;
    let n: usize = learned.properties.len();
    let ghost items = learned.properties.items();
    for i in 0..n
        invariant
            n == items.len(),
            items == learned.properties.items(),
            learned@.properties == learned.properties@,
            known@.services == start.services,
            forall|j: int|
                0 <= j < n ==> learned.properties@.dom().contains((#[trigger] items[j]).0)
                    && learned.properties@[items[j].0] == items[j].1,
            forall|k: Seq<char>| #[trigger]
                known@.properties.dom().contains(k) <==> start.properties.dom().contains(k)
                    || exists|j: int| 0 <= j < i && (#[trigger] items[j]).0 == k,
            forall|j: int|
                0 <= j < i ==> known@.properties[(#[trigger] items[j]).0] == items[j].1,
            forall|k: Seq<char>|
                start.properties.dom().contains(k) && (forall|j: int|
                    0 <= j < i ==> (#[trigger] items[j]).0 != k) ==> #[trigger] known@.properties[k]
                    == start.properties[k],
    {
        let ghost before = known@.properties;
        let (k, v) = learned.properties.entry(i);
        known.properties.insert(k.dup(), v.dup());
        assert(items[i as int] == (k@, v@));
        assert(known@.properties == before.insert(k@, v@));
        assert forall|q: Seq<char>| #[trigger]
            known@.properties.dom().contains(q) <==> start.properties.dom().contains(q)
                || exists|j: int| 0 <= j < i + 1 && (#[trigger] items[j]).0 == q by {
            if q == k@ {
                assert(items[i as int].0 == q);
            } else {
                assert(known@.properties.dom().contains(q) == before.dom().contains(q));
            }
        }
        assert forall|q: Seq<char>|
            start.properties.dom().contains(q) && (forall|j: int|
                0 <= j < i + 1 ==> (#[trigger] items[j]).0 != q) implies #[trigger] known@.properties[q]
            == start.properties[q] by {
            assert(items[i as int].0 != q);
            assert(before[q] == start.properties[q]);
        }
    }
    assert(known@.properties =~= start.properties.union_prefer_right(learned@.properties));
    let ghost middle = known@;
    let m: usize = learned.services.len();
    let ghost list = learned.services.list();
    for i in 0..m
        invariant
            m == list.len(),
            list == learned.services.list(),
            known@.properties == middle.properties,
            forall|s: Seq<char>| #[trigger]
                known@.services.contains(s) <==> middle.services.contains(s) || exists|j: int|
                    0 <= j < i && #[trigger] list[j] == s,
    {
        let ghost before = known@.services;
        let service = learned.services.at(i);
        known.services.insert(service.dup());
        assert(list[i as int] == service@);
        assert(known@.services == before.insert(service@));
        assert forall|s: Seq<char>| #[trigger]
            known@.services.contains(s) <==> middle.services.contains(s) || exists|j: int|
                0 <= j < i + 1 && #[trigger] list[j] == s by {
            if s == service@ {
                assert(list[i as int] == s);
            } else {
                assert(known@.services.contains(s) == before.contains(s));
            }
        }
    }
    assert(known@.services =~= start.services.union(learned@.services));
}

/// The details of all devices once something was learned of the one at an
/// address; of hosts outside this network nothing is noted.
pub open spec fn learned_at(
    m: Map<IpAddr, DetailsView>,
    ip: IpAddr,
    d: DetailsView,
) -> Map<IpAddr, DetailsView> {
    if net::local_ip(ip) {
        m.insert(ip, merged(announce::details_at(m, ip), d))
    } else {
        m
    }
}

/// The details of all devices once lists of what was learned were read.
pub open spec fn learned_all(
    m: Map<IpAddr, DetailsView>,
    list: Seq<(IpAddr, DetailsView)>,
) -> Map<IpAddr, DetailsView>
    decreases list.len(),
{
    if list.len() == 0 {
        m
    } else {
        learned_at(learned_all(m, list.drop_last()), list.last().0, list.last().1)
    }
}

/// Notes what was learned of devices.
pub fn learn_details(board: &mut DetailsBoard, learned: &Table<IpAddr, DeviceDetails>)
    ensures
        final(board)@ == learned_all(old(board)@, learned.items()),
{
    let ghost start = board@;
    let ghost items = learned.items();
    let n: usize = learned.len();
    for i in 0..n
        invariant
            n == items.len(),
            items == learned.items(),
            board@ == learned_all(start, items.take(i as int)),
    {
        assert(items.take(i + 1).drop_last() =~= items.take(i as int));
        let (ip, d) = learned.entry(i);
        assert(items[i as int] == (ip@, d@));
        if is_local_ip(ip) {
            let mut known = board.details(ip);
            merge_details(&mut known, d);
            board.insert(*ip, known);
        }
    }
    assert(items.take(n as int) =~= items);
}

// ---------------------------------------------------------------------------
// Finding devices
// ---------------------------------------------------------------------------

/// What a scan has found so far: the devices, the addresses whose names are
/// looked for, and those of devices that may sleep.
pub struct Scan {
    pub found: Table<IpAddr, DeviceInfo>,
    pub wanted: Vec<IpAddr>,
    pub stale: Vec<IpAddr>,
}

/// What a scan has found so far.
pub struct ScanView {
    pub found: Map<IpAddr, InfoView>,
    pub wanted: Seq<IpAddr>,
    pub stale: Seq<IpAddr>,
}

impl View for Scan {
    type V = ScanView;

    open spec fn view(&self) -> ScanView {
        ScanView { found: self.found@, wanted: self.wanted@, stale: self.stale@ }
    }
}

/// When something is seen, by the steady clock and by the wall clock.
#[derive(Clone, Copy)]
pub struct Moment {
    /// Nanoseconds of the steady clock.
    pub steady: u64,
    /// Seconds of the wall clock.
    pub unix: u64,
}

/// A device that is seen at a moment.
pub open spec fn device_seen(
    mac: Seq<char>,
    vendor: Seq<char>,
    hostname: Seq<char>,
    now: Moment,
) -> InfoView {
    InfoView {
        mac,
        vendor,
        hostname,
        miss_count: 0,
        last_seen: now.steady,
        last_seen_unix: now.unix,
    }
}

/// A device that is seen at a moment.
pub fn see_device(mac: String, vendor: String, hostname: String, now: Moment) -> (r: DeviceInfo)
    ensures
        r@ == device_seen(mac@, vendor@, hostname@, now),
{
    DeviceInfo {
        mac,
        vendor,
        hostname,
        miss_count: 0,
        last_seen: now.steady,
        last_seen_unix: now.unix,
    }
}

/// An address among those whose names are looked for.
pub open spec fn asked_for(wanted: Seq<IpAddr>, ip: IpAddr) -> Seq<IpAddr> {
    if !wanted.contains(ip) && naming::resolvable(ip) {
        wanted.push(ip)
    } else {
        wanted
    }
}

/// Whether an address is in a list.
pub fn is_listed(list: &Vec<IpAddr>, ip: &IpAddr) -> (r: bool)
    ensures
        r == list@.contains(*ip),
{
    let n: usize = list.len();
    for i in 0..n
        invariant
            n == list@.len(),
            forall|j: int| 0 <= j < i ==> list@[j] != *ip,
    {
        if list[i] == *ip {
            assert(list@[i as int] == *ip);
            return true;
        }
    }
    false
}

impl ScanView {
    /// After an entry of the address table.
    pub open spec fn with_neighbour(
        self,
        n: Neighbour,
        interface: Option<u32>,
        list: Seq<(Seq<char>, Seq<char>)>,
        now: Moment,
    ) -> ScanView {
        let mac = arp::pairs_text(n.mac@);
        let vendor = vendor::vendor_of(list, mac);
        if !arp::tells_of_host(n, interface) {
            self
        } else {
            ScanView {
                found: self.found.insert(
                    n.ip,
                    device_seen(
                        mac,
                        vendor,
                        if naming::resolvable(n.ip) {
                            RESOLVING@
                        } else {
                            DASH@
                        },
                        now,
                    ),
                ),
                wanted: if naming::resolvable(n.ip) {
                    self.wanted.push(n.ip)
                } else {
                    self.wanted
                },
                stale: if n.state == STALE && n.ip is V4 && (text::contains(text::lowered(vendor), "apple"@)
                    || no_maker(vendor)) {
                    self.stale.push(n.ip)
                } else {
                    self.stale
                },
            }
        }
    }

    /// After the first `n` entries of the address table.
    pub open spec fn with_neighbours(
        self,
        rows: Seq<Neighbour>,
        n: int,
        interface: Option<u32>,
        list: Seq<(Seq<char>, Seq<char>)>,
        now: Moment,
    ) -> ScanView
        decreases n,
    {
        if n <= 0 || n > rows.len() {
            self
        } else {
            self.with_neighbours(rows, n - 1, interface, list, now).with_neighbour(
                rows[n - 1],
                interface,
                list,
                now,
            )
        }
    }

    /// After a reply of a host with a hardware address.
    pub open spec fn with_reply(
        self,
        ip: IpAddr,
        mac: Seq<char>,
        vendor: Seq<char>,
        now: Moment,
    ) -> ScanView {
        if !net::local_ip(ip) {
            self
        } else {
            ScanView {
                found: self.found.insert(ip, device_seen(mac, vendor, RESOLVING@, now)),
                wanted: asked_for(self.wanted, ip),
                ..self
            }
        }
    }

    /// After a host was named by an announcement: it is noted where it was not
    /// found otherwise.
    pub open spec fn with_name(self, ip: IpAddr, name: Seq<char>, now: Moment) -> ScanView {
        if !net::local_ip(ip) {
            self
        } else {
            ScanView {
                found: traffic::first_kept(
                    self.found,
                    ip,
                    device_seen("Unknown"@, "Unknown"@, name, now),
                ),
                wanted: asked_for(self.wanted, ip),
                ..self
            }
        }
    }

    /// After hosts were named by announcements.
    pub open spec fn with_names(
        self,
        names: Seq<(IpAddr, Seq<char>)>,
        now: Moment,
    ) -> ScanView
        decreases names.len(),
    {
        if names.len() == 0 {
            self
        } else {
            self.with_names(names.drop_last(), now).with_name(
                names.last().0,
                names.last().1,
                now,
            )
        }
    }

    /// After a device told of itself.
    pub open spec fn with_probe(self, ip: IpAddr, name: Seq<char>, d: DetailsView) -> ScanView {
        if !self.found.dom().contains(ip) {
            self
        } else {
            ScanView {
                found: self.found.insert(ip, probed(self.found[ip], name, d)),
                ..self
            }
        }
    }

    /// With a device that was seen otherwise, where the scan did not find it.
    pub open spec fn with_sighting(self, ip: IpAddr, info: InfoView) -> ScanView {
        if net::local_ip(ip) {
            ScanView { found: traffic::first_kept(self.found, ip, info), ..self }
        } else {
            self
        }
    }

    /// With devices that were seen otherwise.
    pub open spec fn with_sightings(self, seen: Seq<(IpAddr, InfoView)>) -> ScanView
        decreases seen.len(),
    {
        if seen.len() == 0 {
            self
        } else {
            self.with_sightings(seen.drop_last()).with_sighting(seen.last().0, seen.last().1)
        }
    }
}

/// The model of a device was told.
pub open spec fn model_told(d: DetailsView) -> bool {
    d.property("model"@) is Some || d.property("model_code"@) is Some
}

/// A device once it has told of itself: it has the name that it told, and one
/// without a known maker that told its model is from Apple.
pub open spec fn probed(info: InfoView, name: Seq<char>, d: DetailsView) -> InfoView {
    InfoView {
        hostname: if name.len() > 0 {
            name
        } else {
            info.hostname
        },
        vendor: if model_told(d) && no_maker(info.vendor) {
            "Apple Inc."@
        } else {
            info.vendor
        },
        ..info
    }
}

/// The details of all devices once one told of itself.
pub open spec fn probed_details(
    m: Map<IpAddr, DetailsView>,
    ip: IpAddr,
    d: DetailsView,
) -> Map<IpAddr, DetailsView> {
    if d == device::no_details() {
        m
    } else {
        m.insert(ip, merged(announce::details_at(m, ip), d))
    }
}

proof fn lemma_join_ascii(parts: Seq<Seq<char>>, sep: Seq<char>)
    requires
        forall|i: int| 0 <= i < parts.len() ==> text::all_ascii(#[trigger] parts[i]),
        text::all_ascii(sep),
    ensures
        text::all_ascii(text::join(parts, sep)),
    decreases parts.len(),
{
    if parts.len() > 1 {
        lemma_join_ascii(parts.drop_last(), sep);
        let a = text::join(parts.drop_last(), sep);
        let whole = a + sep + parts.last();
        assert forall|i: int| 0 <= i < whole.len() implies (#[trigger] whole[i] as u32) < 128 by {
            if i < a.len() {
                assert((a[i] as u32) < 128);
            } else if i < a.len() + sep.len() {
                assert((sep[i - a.len()] as u32) < 128);
            } else {
                assert(text::all_ascii(parts[parts.len() - 1]));
                assert((parts.last()[i - a.len() - sep.len()] as u32) < 128);
            }
        }
    } else if parts.len() == 1 {
        assert(text::all_ascii(parts[0]));
    }
}

proof fn lemma_pairs_ascii(m: Seq<u8>)
    ensures
        text::all_ascii(arp::pairs_text(m)),
{
    let parts = m.map_values(|b: u8| text::hex2(b));
    assert forall|i: int| 0 <= i < parts.len() implies text::all_ascii(#[trigger] parts[i]) by {
        assert(parts[i] == text::hex2(m[i]));
    }
    reveal_strlit(":");
    lemma_join_ascii(parts, ":"@);
}

impl Scan {
    /// Nothing was found yet.
    pub fn new() -> (r: Scan)
        ensures
            (r@ == ScanView {
                found: Map::<IpAddr, InfoView>::empty(),
                wanted: Seq::<IpAddr>::empty(),
                stale: Seq::<IpAddr>::empty(),
            }),
    {
        Scan { found: Table::new(), wanted: Vec::new(), stale: Vec::new() }
    }

    fn want(&mut self, ip: IpAddr)
        ensures
            final(self)@ == (ScanView { wanted: asked_for(old(self)@.wanted, ip), ..old(self)@ }),
            final(self).found == old(self).found,
    {
        if !is_listed(&self.wanted, &ip) && should_resolve_hostname(&ip) {
            self.wanted.push(ip);
        }
    }

    fn take_neighbour(
        &mut self,
        n: &Neighbour,
        interface: Option<u32>,
        vendors: &VendorList,
        now: Moment,
    )
        ensures
            final(self)@ == old(self)@.with_neighbour(*n, interface, vendors@, now),
    {
        let mac = match read_neighbour(n, interface) {
            Some(m) => m,
            None => {
                return;
            },
        };
        proof {
            lemma_pairs_ascii(n.mac@);
        }
        let vendor = match try_get_vendor(vendors, mac.as_str()) {
            Some(v) => v,
            None => {
                return;
            },
        };
        if n.state == STALE {
            let lower = lower_case(vendor.as_str());
            if has_part(lower.as_str(), "apple") || is_no_maker(vendor.as_str()) {
                match n.ip {
                    IpAddr::V4(_) => self.stale.push(n.ip),
                    IpAddr::V6(_) => {},
                }
            }
        }
        let name = if should_resolve_hostname(&n.ip) {
            self.wanted.push(n.ip);
            RESOLVING.to_owned()
        } else {
            DASH.to_owned()
        };
        self.found.insert(n.ip, see_device(mac, vendor, name, now));
    }

    /// Reads the address table of the system.
    pub fn read_table(
        &mut self,
        rows: &Vec<Neighbour>,
        interface: Option<u32>,
        vendors: &VendorList,
        now: Moment,
    )
        ensures
            final(self)@ == old(self)@.with_neighbours(
                rows@,
                rows@.len() as int,
                interface,
                vendors@,
                now,
            ),
    {
        let ghost start = self@;
        let n: usize = rows.len();
        for i in 0..n
            invariant
                n == rows@.len(),
                self@ == start.with_neighbours(rows@, i as int, interface, vendors@, now),
        {
            self.take_neighbour(&rows[i], interface, vendors, now);
        }
    }

    /// Takes the reply of a host with a hardware address.
    pub fn take_reply(&mut self, ip: IpAddr, mac: String, vendor: String, now: Moment)
        ensures
            final(self)@ == old(self)@.with_reply(ip, mac@, vendor@, now),
    {
        if !is_local_ip(&ip) {
            return;
        }
        self.found.insert(ip, see_device(mac, vendor, RESOLVING.to_owned(), now));
        self.want(ip);
    }

    fn take_name(&mut self, ip: IpAddr, name: &str, now: Moment)
        ensures
            final(self)@ == old(self)@.with_name(ip, name@, now),
    {
        if !is_local_ip(&ip) {
            return;
        }
        if !self.found.contains_key(&ip) {
            self.found.insert(
                ip,
                see_device("Unknown".to_owned(), "Unknown".to_owned(), name.to_owned(), now),
            );
        }
        self.want(ip);
    }

    /// Takes the names of hosts that were announced.
    pub fn take_names(&mut self, names: &Table<IpAddr, String>, now: Moment)
        ensures
            final(self)@ == old(self)@.with_names(names.items(), now),
    {
        let ghost start = self@;
        let ghost items = names.items();
        let n: usize = names.len();
        for i in 0..n
            invariant
                n == items.len(),
                items == names.items(),
                self@ == start.with_names(items.take(i as int), now),
        {
            assert(items.take(i + 1).drop_last() =~= items.take(i as int));
            let (ip, name) = names.entry(i);
            assert(items[i as int] == (ip@, name@));
            self.take_name(*ip, name.as_str(), now);
        }
        assert(items.take(n as int) =~= items);
    }

    /// Takes what a device told of itself.
    pub fn take_probe(
        &mut self,
        board: &mut DetailsBoard,
        ip: IpAddr,
        name: &str,
        details: &DeviceDetails,
    )
        ensures
            final(self)@ == old(self)@.with_probe(ip, name@, details@),
            final(board)@ == probed_details(old(board)@, ip, details@),
    {
        let told = details.get("model").is_some() || details.get("model_code").is_some();
        let mut entry: Option<DeviceInfo> = None;
        match self.found.get(&ip) {
            Some(d) => {
                entry = Some(d.dup());
            },
            None => {},
        }
        match entry {
            Some(d) => {
                let mut d = d;
                if name.unicode_len() > 0 {
                    d.hostname = name.to_owned();
                }
                if told && is_no_maker(d.vendor.as_str()) {
                    d.vendor = "Apple Inc.".to_owned();
                }
                self.found.insert(ip, d);
            },
            None => {},
        }
        if !details.is_empty() {
            let mut known = board.details(&ip);
            merge_details(&mut known, details);
            board.insert(ip, known);
        }
    }

    /// The devices that are asked what they are: those with an IPv4 address
    /// whose model is not known.
    pub fn probe_targets(&self, board: &DetailsBoard) -> (r: Vec<IpAddr>)
        ensures
            r@ == self.found.items().filter_map(
                |e: (IpAddr, InfoView)| probe_target(board@, e.0),
            ),
            forall|i: int| 0 <= i < r@.len() ==> self@.found.dom().contains(#[trigger] r@[i]),
    {
        let ghost items = self.found.items();
        let ghost f = |e: (IpAddr, InfoView)| probe_target(board@, e.0);
        let mut r: Vec<IpAddr> = Vec::new();
        let n: usize = self.found.len();
        assert(r@ =~= items.take(0).filter_map(f));
        for i in 0..n
            invariant
                n == items.len(),
                items == self.found.items(),
                f == (|e: (IpAddr, InfoView)| probe_target(board@, e.0)),
                r@ == items.take(i as int).filter_map(f),
                forall|j: int| 0 <= j < r@.len() ==> self@.found.dom().contains(#[trigger] r@[j]),
        {
            proof {
                items.lemma_filter_map_take_succ(f, i as int);
            }
            let ghost before = r@;
            assert(before + Seq::<IpAddr>::empty() =~= before);
            let (ip, d) = self.found.entry(i);
            assert(items[i as int] == (ip@, d@));
            match *ip {
                IpAddr::V4(_) => {
                    let known = match board.get(ip) {
                        Some(m) => m.get("model").is_some(),
                        None => false,
                    };
                    if !known {
                        r.push(*ip);
                        assert(r@ =~= before + seq![*ip]);
                    }
                },
                IpAddr::V6(_) => {},
            }
        }
        assert(items.take(n as int) =~= items);
        r
    }

    /// Takes the devices that were seen otherwise.
    pub fn take_sightings(&mut self, seen: &Table<IpAddr, DeviceInfo>)
        ensures
            final(self)@ == old(self)@.with_sightings(seen.items()),
    {
        let ghost start = self@;
        let ghost items = seen.items();
        let n: usize = seen.len();
        for i in 0..n
            invariant
                n == items.len(),
                items == seen.items(),
                self@ == start.with_sightings(items.take(i as int)),
        {
            assert(items.take(i + 1).drop_last() =~= items.take(i as int));
            let (ip, d) = seen.entry(i);
            assert(items[i as int] == (ip@, d@));
            if is_local_ip(ip) && !self.found.contains_key(ip) {
                self.found.insert(*ip, d.dup());
            }
        }
        assert(items.take(n as int) =~= items);
    }
}

impl ScanView {
    /// Everything that the scan holds is in this network.
    pub open spec fn local(self) -> bool {
        &&& forall|ip: IpAddr| #[trigger] self.found.dom().contains(ip) ==> net::local_ip(ip)
        &&& forall|i: int| 0 <= i < self.wanted.len() ==> net::local_ip(#[trigger] self.wanted[i])
        &&& forall|i: int| 0 <= i < self.stale.len() ==> net::local_ip(#[trigger] self.stale[i])
    }
}

proof fn lemma_neighbours_local(
    s: ScanView,
    rows: Seq<Neighbour>,
    n: int,
    interface: Option<u32>,
    list: Seq<(Seq<char>, Seq<char>)>,
    now: Moment,
)
    requires
        s.local(),
    ensures
        s.with_neighbours(rows, n, interface, list, now).local(),
    decreases n,
{
    if 0 < n <= rows.len() {
        lemma_neighbours_local(s, rows, n - 1, interface, list, now);
    }
}

proof fn lemma_names_local(s: ScanView, names: Seq<(IpAddr, Seq<char>)>, now: Moment)
    requires
        s.local(),
    ensures
        s.with_names(names, now).local(),
    decreases names.len(),
{
    if names.len() > 0 {
        lemma_names_local(s, names.drop_last(), now);
    }
}

proof fn lemma_sightings_local(s: ScanView, seen: Seq<(IpAddr, InfoView)>)
    requires
        s.local(),
    ensures
        s.with_sightings(seen).local(),
    decreases seen.len(),
{
    if seen.len() > 0 {
        lemma_sightings_local(s, seen.drop_last());
    }
}

/// A scan stays in this network: whatever tables, replies, announcements and
/// sightings say, no host outside of it is found, asked for its name or woken.
pub proof fn law_scan_stays_local(
    s: ScanView,
    rows: Seq<Neighbour>,
    interface: Option<u32>,
    list: Seq<(Seq<char>, Seq<char>)>,
    names: Seq<(IpAddr, Seq<char>)>,
    seen: Seq<(IpAddr, InfoView)>,
    ip: IpAddr,
    mac: Seq<char>,
    name: Seq<char>,
    d: DetailsView,
    now: Moment,
)
    requires
        s.local(),
    ensures
        s.with_neighbours(rows, rows.len() as int, interface, list, now).local(),
        s.with_reply(ip, mac, name, now).local(),
        s.with_names(names, now).local(),
        s.with_probe(ip, name, d).local(),
        s.with_sightings(seen).local(),
{
    lemma_neighbours_local(s, rows, rows.len() as int, interface, list, now);
    lemma_names_local(s, names, now);
    lemma_sightings_local(s, seen);
}

/// An address that is asked what it is.
pub open spec fn probe_target(m: Map<IpAddr, DetailsView>, ip: IpAddr) -> Option<IpAddr> {
    if ip is V4 && !(m.dom().contains(ip) && m[ip].property("model"@) is Some) {
        Some(ip)
    } else {
        None
    }
}

// ---------------------------------------------------------------------------
// Merging
// ---------------------------------------------------------------------------

/// A device once a scan did not find it.
pub open spec fn missed(info: InfoView) -> InfoView {
    InfoView {
        miss_count: if info.miss_count == u32::MAX {
            u32::MAX
        } else {
            (info.miss_count + 1) as u32
        },
        ..info
    }
}

/// A device once a scan found it again: it keeps its name unless the scan
/// gives one.
pub open spec fn found_again(known: InfoView, new: InfoView, now: Moment) -> InfoView {
    device_seen(
        new.mac,
        new.vendor,
        if no_name(new.hostname) {
            known.hostname
        } else {
            new.hostname
        },
        now,
    )
}

/// A device after a scan.
pub open spec fn after_scan(
    known: Map<IpAddr, InfoView>,
    found: Map<IpAddr, InfoView>,
    now: Moment,
    ip: IpAddr,
) -> InfoView {
    if !found.dom().contains(ip) {
        missed(known[ip])
    } else if known.dom().contains(ip) {
        found_again(known[ip], found[ip], now)
    } else {
        found[ip]
    }
}

/// The devices after a scan.
pub open spec fn devices_after(
    known: Map<IpAddr, InfoView>,
    found: Map<IpAddr, InfoView>,
    now: Moment,
) -> Map<IpAddr, InfoView> {
    Map::new(
        |ip: IpAddr| known.dom().contains(ip) || found.dom().contains(ip),
        |ip: IpAddr| after_scan(known, found, now, ip),
    )
}

fn age_missing(board: &mut DeviceBoard, found: &Table<IpAddr, DeviceInfo>)
    ensures
        final(board)@ == Map::new(
            |ip: IpAddr| old(board)@.dom().contains(ip),
            |ip: IpAddr|
                if found@.dom().contains(ip) {
                    old(board)@[ip]
                } else {
                    missed(old(board)@[ip])
                },
        ),
{
    let ghost start = board@;
    let ips = board.ips();
    let n: usize = ips.len();
    for i in 0..n
        invariant
            n == ips@.len(),
            ips@.no_duplicates(),
            forall|ip: IpAddr| #[trigger] ips@.contains(ip) <==> start.dom().contains(ip),
            board@.dom() == start.dom(),
            forall|j: int|
                0 <= j < i ==> board@[#[trigger] ips@[j]] == (if found@.dom().contains(ips@[j]) {
                    start[ips@[j]]
                } else {
                    missed(start[ips@[j]])
                }),
            forall|j: int| i <= j < n ==> board@[#[trigger] ips@[j]] == start[ips@[j]],
    {
        let ip = ips[i];
        assert(ips@.contains(ip));
        if !found.contains_key(&ip) {
            match board.get(&ip) {
                Some(d) => {
                    let mut d = d;
                    if d.miss_count < u32::MAX {
                        d.miss_count = d.miss_count + 1;
                    }
                    board.insert(ip, d);
                    assert(board@.dom() =~= start.dom());
                },
                None => {},
            }
        }
    }
    proof {
        let want = Map::new(
            |ip: IpAddr| start.dom().contains(ip),
            |ip: IpAddr|
                if found@.dom().contains(ip) {
                    start[ip]
                } else {
                    missed(start[ip])
                },
        );
        assert forall|ip: IpAddr| start.dom().contains(ip) implies board@[ip] == want[ip] by {
            assert(ips@.contains(ip));
            let j = choose|j: int| 0 <= j < ips@.len() && ips@[j] == ip;
            assert(ips@[j] == ip);
        }
        assert(board@ =~= want);
    }
}

/// Merges what a scan found into the devices that were known: those it did
/// not find age, the others are up to date.
pub fn merge_scan(board: &mut DeviceBoard, found: &Table<IpAddr, DeviceInfo>, now: Moment)
    ensures
        final(board)@ == devices_after(old(board)@, found@, now),
{
    let ghost start = board@;
    age_missing(board, found);
    let ghost aged = board@;
    let n: usize = found.len();
    let ghost items = found.items();
    for i in 0..n
        invariant
            n == items.len(),
            items == found.items(),
            aged.dom() == start.dom(),
            forall|ip: IpAddr| start.dom().contains(ip) && found@.dom().contains(ip) ==> #[trigger]
                aged[ip] == start[ip],
            forall|j: int|
                0 <= j < n ==> found@.dom().contains((#[trigger] items[j]).0)
                    && found@[items[j].0] == items[j].1,
            forall|j: int, k: int|
                0 <= j < k < n ==> (#[trigger] items[j]).0 != (#[trigger] items[k]).0,
            forall|ip: IpAddr| #[trigger]
                board@.dom().contains(ip) <==> aged.dom().contains(ip) || exists|j: int|
                    0 <= j < i && (#[trigger] items[j]).0 == ip,
            forall|j: int|
                0 <= j < i ==> board@[(#[trigger] items[j]).0] == after_scan(
                    start,
                    found@,
                    now,
                    items[j].0,
                ),
            forall|ip: IpAddr|
                aged.dom().contains(ip) && (forall|j: int|
                    0 <= j < i ==> (#[trigger] items[j]).0 != ip) ==> #[trigger] board@[ip]
                    == aged[ip],
    {
        let (ip, new) = found.entry(i);
        assert(items[i as int] == (ip@, new@));
        assert(forall|j: int| 0 <= j < i ==> (#[trigger] items[j]).0 != *ip);
        let entry = match board.get(ip) {
            Some(known) => {
                assert(aged.dom().contains(*ip));
                assert(known@ == start[*ip]);
                let name = if is_no_name(new.hostname.as_str()) {
                    known.hostname
                } else {
                    new.hostname.dup()
                };
                see_device(new.mac.dup(), new.vendor.dup(), name, now)
            },
            None => new.dup(),
        };
        board.insert(*ip, entry);
    }
    proof {
        let want = devices_after(start, found@, now);
        assert forall|ip: IpAddr| board@.dom().contains(ip) == want.dom().contains(ip) by {
            if found@.dom().contains(ip) {
                let j = choose|j: int| 0 <= j < items.len() && (#[trigger] items[j]).0 == ip;
                assert(items[j].0 == ip);
            }
        }
        assert forall|ip: IpAddr| want.dom().contains(ip) implies board@[ip] == want[ip] by {
            if found@.dom().contains(ip) {
                let j = choose|j: int| 0 <= j < items.len() && (#[trigger] items[j]).0 == ip;
                assert(items[j].0 == ip);
            }
        }
        assert(board@ =~= want);
    }
}

/// No scan forgets a device, and the age of a device is the number of scans
/// in a row that did not find it.
pub proof fn law_scan_keeps_devices(
    known: Map<IpAddr, InfoView>,
    found: Map<IpAddr, InfoView>,
    now: Moment,
    ip: IpAddr,
)
    requires
        known.dom().contains(ip),
        known[ip].miss_count < u32::MAX,
    ensures
        devices_after(known, found, now).dom().contains(ip),
        found.dom().contains(ip) ==> devices_after(known, found, now)[ip].miss_count == 0,
        !found.dom().contains(ip) ==> devices_after(known, found, now)[ip].miss_count
            == known[ip].miss_count + 1,
{
}

/// A device whose name is known keeps it through a scan that finds none.
pub proof fn law_name_survives_scan(
    known: Map<IpAddr, InfoView>,
    found: Map<IpAddr, InfoView>,
    now: Moment,
    ip: IpAddr,
)
    requires
        known.dom().contains(ip),
        found.dom().contains(ip) ==> no_name(found[ip].hostname),
    ensures
        devices_after(known, found, now)[ip].hostname == known[ip].hostname,
{
}

/// A device whose name is still looked for.
pub open spec fn lacks_name(m: Map<IpAddr, InfoView>, ip: IpAddr) -> bool {
    m.dom().contains(ip) && no_name(m[ip].hostname) && naming::resolvable(ip)
}

/// The addresses whose names are looked for: those that the scan asked for, and
/// behind them those of all devices without a name.
pub fn names_wanted(board: &DeviceBoard, wanted: &Vec<IpAddr>) -> (r: Vec<IpAddr>)
    ensures
        r@.len() >= wanted@.len(),
        r@.take(wanted@.len() as int) == wanted@,
        r@.skip(wanted@.len() as int).no_duplicates(),
        forall|ip: IpAddr| #[trigger]
            r@.skip(wanted@.len() as int).contains(ip) <==> lacks_name(board@, ip)
                && !wanted@.contains(ip),
{
    let mut r: Vec<IpAddr> = Vec::new();
    let w: usize = wanted.len();
    for i in 0..w
        invariant
            w == wanted@.len(),
            r@ == wanted@.take(i as int),
    {
        r.push(wanted[i]);
    }
    assert(r@ =~= wanted@);
    let ips = board.ips();
    let n: usize = ips.len();
    assert(r@.skip(w as int) =~= Seq::<IpAddr>::empty());
    for i in 0..n
        invariant
            n == ips@.len(),
            w == wanted@.len(),
            r@.len() >= w,
            r@.take(w as int) == wanted@,
            ips@.no_duplicates(),
            forall|ip: IpAddr| #[trigger] ips@.contains(ip) <==> board@.dom().contains(ip),
            r@.skip(w as int).no_duplicates(),
            forall|ip: IpAddr| #[trigger]
                r@.skip(w as int).contains(ip) <==> ips@.take(i as int).contains(ip) && lacks_name(
                    board@,
                    ip,
                ) && !wanted@.contains(ip),
    {
        let ip = ips[i];
        let ghost before = r@;
        let ghost tail = r@.skip(w as int);
        assert(ips@.contains(ip));
        assert(!ips@.take(i as int).contains(ip)) by {
            if ips@.take(i as int).contains(ip) {
                let j = choose|j: int| 0 <= j < i && ips@.take(i as int)[j] == ip;
                assert(ips@[j] == ips@[i as int]);
            }
        }
        let unnamed = match board.get(&ip) {
            Some(d) => is_no_name(d.hostname.as_str()),
            None => false,
        };
        assert forall|q: IpAddr| #[trigger] ips@.take(i + 1).contains(q) <==> ips@.take(
            i as int,
        ).contains(q) || q == ip by {
            if ips@.take(i + 1).contains(q) {
                let t = ips@.take(i + 1);
                let j = choose|j: int| 0 <= j < t.len() && t[j] == q;
                if j < i {
                    assert(ips@.take(i as int)[j] == q);
                }
            }
            if ips@.take(i as int).contains(q) {
                let j = choose|j: int| 0 <= j < i && ips@.take(i as int)[j] == q;
                assert(ips@.take(i + 1)[j] == q);
            }
            if q == ip {
                assert(ips@.take(i + 1)[i as int] == q);
            }
        }
        if unnamed && should_resolve_hostname(&ip) && !is_listed(wanted, &ip) {
            r.push(ip);
            proof {
                let now = r@.skip(w as int);
                assert(now =~= tail.push(ip));
                assert(!tail.contains(ip));
                assert(r@.take(w as int) =~= before.take(w as int));
                assert forall|q: IpAddr| #[trigger] now.contains(q) <==> tail.contains(q) || q == ip by {
                    if tail.contains(q) {
                        let j = choose|j: int| 0 <= j < tail.len() && tail[j] == q;
                        assert(now[j] == q);
                    }
                    if q == ip {
                        assert(now[tail.len() as int] == q);
                    }
                }
            }
        }
    }
    assert(ips@.take(n as int) =~= ips@);
    r
}

/// A device is kept between sessions: one of this network, and no IPv6 address
/// of the own link whose host is known by an IPv4 address.
pub open spec fn kept(m: Map<IpAddr, InfoView>, ip: IpAddr) -> bool {
    m.dom().contains(ip) && net::local_ip(ip) && !(naming::link_local(ip) && exists|other: IpAddr|
        m.dom().contains(other) && other is V4 && (#[trigger] m[other]).mac == m[ip].mac)
}

/// The devices that are kept between sessions.
pub open spec fn baseline(m: Map<IpAddr, InfoView>) -> Map<IpAddr, InfoView> {
    Map::new(|ip: IpAddr| kept(m, ip), |ip: IpAddr| m[ip])
}

/// The devices that are kept between sessions.
pub fn baseline_of(board: &DeviceBoard) -> (r: Table<IpAddr, DeviceInfo>)
    ensures
        r@ == baseline(board@),
{
    let ips = board.ips();
    let n: usize = ips.len();
    let mut macs: KeySet<String> = KeySet::new();
    for i in 0..n
        invariant
            n == ips@.len(),
            forall|ip: IpAddr| #[trigger] ips@.contains(ip) <==> board@.dom().contains(ip),
            forall|m: Seq<char>| #[trigger]
                macs@.contains(m) <==> exists|j: int|
                    0 <= j < i && #[trigger] ips@[j] is V4 && board@[ips@[j]].mac == m,
    {
        let ip = ips[i];
        assert(ips@.contains(ip));
        match ip {
            IpAddr::V4(_) => match board.get(&ip) {
                Some(d) => {
                    macs.insert(d.mac.dup());
                },
                None => {},
            },
            IpAddr::V6(_) => {},
        }
    }
    assert forall|m: Seq<char>| #[trigger] macs@.contains(m) <==> exists|other: IpAddr|
        board@.dom().contains(other) && other is V4 && (#[trigger] board@[other]).mac == m by {
        if exists|other: IpAddr|
            board@.dom().contains(other) && other is V4 && (#[trigger] board@[other]).mac == m {
            let other = choose|other: IpAddr|
                board@.dom().contains(other) && other is V4 && (#[trigger] board@[other]).mac == m;
            assert(ips@.contains(other));
            let j = choose|j: int| 0 <= j < ips@.len() && ips@[j] == other;
            assert(ips@[j] is V4);
        }
        if macs@.contains(m) {
            let j = choose|j: int|
                0 <= j < n && #[trigger] ips@[j] is V4 && board@[ips@[j]].mac == m;
            assert(ips@.contains(ips@[j]));
        }
    }
    let mut r: Table<IpAddr, DeviceInfo> = Table::new();
    for i in 0..n
        invariant
            n == ips@.len(),
            forall|ip: IpAddr| #[trigger] ips@.contains(ip) <==> board@.dom().contains(ip),
            forall|m: Seq<char>| #[trigger]
                macs@.contains(m) <==> exists|other: IpAddr|
                    board@.dom().contains(other) && other is V4 && (#[trigger] board@[other]).mac
                        == m,
            forall|ip: IpAddr| #[trigger]
                r@.dom().contains(ip) <==> kept(board@, ip) && exists|j: int|
                    0 <= j < i && #[trigger] ips@[j] == ip,
            forall|ip: IpAddr| #[trigger] r@.dom().contains(ip) ==> r@[ip] == board@[ip],
    {
        let ip = ips[i];
        assert(ips@.contains(ip));
        match board.get(&ip) {
            Some(d) => {
                let shared = is_link_local(&ip) && macs.contains(&d.mac);
                if is_local_ip(&ip) && !shared {
                    r.insert(ip, d);
                }
            },
            None => {},
        }
    }
    assert forall|ip: IpAddr| r@.dom().contains(ip) == baseline(board@).dom().contains(ip) by {
        if kept(board@, ip) {
            assert(ips@.contains(ip));
            let j = choose|j: int| 0 <= j < ips@.len() && ips@[j] == ip;
            assert(ips@[j] == ip);
        }
    }
    assert(r@ =~= baseline(board@));
    r
}

// ---------------------------------------------------------------------------
// Devices that were not known before
// ---------------------------------------------------------------------------

/// The devices outside a baseline.
pub open spec fn unseen(m: Map<IpAddr, InfoView>, known: Option<Set<IpAddr>>) -> Map<
    IpAddr,
    InfoView,
> {
    Map::new(
        |ip: IpAddr| m.dom().contains(ip) && state::outside_baseline(known, ip),
        |ip: IpAddr| m[ip],
    )
}

/// What is told of a device that was not known before.
pub open spec fn new_device_text(ip: IpAddr, d: InfoView) -> Seq<char> {
    "New device since the last baseline: "@ + net::ip_text(ip) + " ("@ + d.mac + ", "@ + d.vendor
        + ")"@
}

/// What is told of devices that were not known before.
pub open spec fn new_device_texts(m: Map<IpAddr, InfoView>, ips: Seq<IpAddr>) -> Seq<Seq<char>> {
    Seq::new(ips.len(), |i: int| new_device_text(ips[i], m[ips[i]]))
}

fn tell_new_device(ip: &IpAddr, d: &DeviceInfo) -> (r: String)
    ensures
        r@ == new_device_text(*ip, d@),
{
    let mut r = "New device since the last baseline: ".to_owned();
    r.append(ip_string(ip).as_str());
    r.append(" (");
    r.append(d.mac.as_str());
    r.append(", ");
    r.append(d.vendor.as_str());
    r.append(")");
    r
}

fn find_unseen(board: &DeviceBoard, known: &Option<KeySet<IpAddr>>) -> (r: Table<IpAddr, DeviceInfo>)
    ensures
        r@ == unseen(board@, state::taken_set(*known)),
{
    let ips = board.ips();
    let n: usize = ips.len();
    let ghost k = state::taken_set(*known);
    let mut r: Table<IpAddr, DeviceInfo> = Table::new();
    for i in 0..n
        invariant
            n == ips@.len(),
            k == state::taken_set(*known),
            forall|ip: IpAddr| #[trigger] ips@.contains(ip) <==> board@.dom().contains(ip),
            forall|ip: IpAddr| #[trigger]
                r@.dom().contains(ip) <==> unseen(board@, k).dom().contains(ip) && exists|j: int|
                    0 <= j < i && #[trigger] ips@[j] == ip,
            forall|ip: IpAddr| #[trigger] r@.dom().contains(ip) ==> r@[ip] == board@[ip],
    {
        let ip = ips[i];
        assert(ips@.contains(ip));
        match board.get(&ip) {
            Some(d) => {
                if is_outside_baseline(known, &ip) {
                    r.insert(ip, d);
                }
            },
            None => {},
        }
    }
    assert forall|ip: IpAddr| r@.dom().contains(ip) == unseen(board@, k).dom().contains(ip) by {
        if unseen(board@, k).dom().contains(ip) {
            assert(ips@.contains(ip));
            let j = choose|j: int| 0 <= j < ips@.len() && ips@[j] == ip;
            assert(ips@[j] == ip);
        }
    }
    assert(r@ =~= unseen(board@, k));
    r
}

/// What is told of the devices that a scan found outside the baseline, one
/// alert each, in the order of their addresses.
pub fn new_device_alerts(board: &DeviceBoard, known: &Option<KeySet<IpAddr>>) -> (r: Vec<String>)
    ensures
        exists|ips: Seq<IpAddr>| #[trigger]
            radar::lists_keys(ips, unseen(board@, state::taken_set(*known))) && text::texts(r@)
                == new_device_texts(board@, ips),
{
    let found = find_unseen(board, known);
    let ips = key_addresses(&found);
    let n: usize = ips.len();
    let mut r: Vec<String> = Vec::new();
    let ghost want = new_device_texts(board@, ips@);
    for i in 0..n
        invariant
            n == ips@.len(),
            want == new_device_texts(board@, ips@),
            found@ == unseen(board@, state::taken_set(*known)),
            radar::lists_keys(ips@, found@),
            text::texts(r@) == want.take(i as int),
    {
        assert(ips@.contains(ips@[i as int]));
        if let Some(d) = found.get(&ips[i]) {
            let ghost before = text::texts(r@);
            let t = tell_new_device(&ips[i], d);
            let ghost v = t@;
            r.push(t);
            assert(text::texts(r@) =~= before.push(v));
            assert(want.take(i + 1) =~= want.take(i as int).push(want[i as int]));
        }
    }
    assert(text::texts(r@) =~= want);
    assert(radar::lists_keys(ips@, unseen(board@, state::taken_set(*known))));
    r
}

/// Every device that a scan found outside the baseline is told of.
pub proof fn law_new_devices_are_told(
    m: Map<IpAddr, InfoView>,
    known: Option<Set<IpAddr>>,
    ips: Seq<IpAddr>,
    ip: IpAddr,
)
    requires
        radar::lists_keys(ips, unseen(m, known)),
    ensures
        m.dom().contains(ip) && state::outside_baseline(known, ip) ==> new_device_texts(
            m,
            ips,
        ).contains(new_device_text(ip, m[ip])),
        known is None ==> new_device_texts(m, ips).len() == 0,
{
    if m.dom().contains(ip) && state::outside_baseline(known, ip) {
        assert(ips.contains(ip));
        let j = choose|j: int| 0 <= j < ips.len() && ips[j] == ip;
        assert(new_device_texts(m, ips)[j] == new_device_text(ip, m[ip]));
    }
    if known is None && ips.len() > 0 {
        assert(ips.contains(ips[0]));
    }
}

/// The devices that were kept, once they are loaded: stale until a scan finds
/// them.
pub open spec fn stale_view(m: Map<IpAddr, InfoView>) -> Map<IpAddr, InfoView> {
    m.map_values(
        |d: InfoView|
            InfoView {
                miss_count: if d.miss_count > 1 {
                    d.miss_count
                } else {
                    1
                },
                ..d
            },
    )
}

/// Marks the devices that were kept as stale.
pub fn mark_stale(devices: &Table<IpAddr, DeviceInfo>) -> (r: Table<IpAddr, DeviceInfo>)
    ensures
        r@ == stale_view(devices@),
{
    let mut r: Table<IpAddr, DeviceInfo> = Table::new();
    let n: usize = devices.len();
    let ghost items = devices.items();
    for i in 0..n
        invariant
            n == items.len(),
            items == devices.items(),
            forall|j: int|
                0 <= j < n ==> devices@.dom().contains((#[trigger] items[j]).0)
                    && devices@[items[j].0] == items[j].1,
            forall|ip: IpAddr| #[trigger]
                r@.dom().contains(ip) <==> exists|j: int|
                    0 <= j < i && (#[trigger] items[j]).0 == ip,
            forall|ip: IpAddr| #[trigger]
                r@.dom().contains(ip) ==> r@[ip] == stale_view(devices@)[ip],
    {
        let (ip, d) = devices.entry(i);
        assert(items[i as int] == (ip@, d@));
        let mut e = d.dup();
        if e.miss_count < 1 {
            e.miss_count = 1;
        }
        r.insert(*ip, e);
    }
    assert(r@ =~= stale_view(devices@));
    r
}

/// The devices that were kept are those that are loaded, at their addresses.
/// Each is as it was kept, but stale: it was missed as often as it was when it
/// was kept, and at least once.
pub proof fn law_loaded_devices_stale(m: Map<IpAddr, InfoView>, ip: IpAddr)
    requires
        m.dom().contains(ip),
    ensures
        stale_view(m).dom() == m.dom(),
        stale_view(m)[ip].mac == m[ip].mac,
        stale_view(m)[ip].vendor == m[ip].vendor,
        stale_view(m)[ip].hostname == m[ip].hostname,
        stale_view(m)[ip].last_seen == m[ip].last_seen,
        stale_view(m)[ip].last_seen_unix == m[ip].last_seen_unix,
        stale_view(m)[ip].miss_count == (if m[ip].miss_count > 1 {
            m[ip].miss_count
        } else {
            1
        }),
{
    assert(stale_view(m).dom() =~= m.dom());
}

// ---------------------------------------------------------------------------
// What is said of a scan
// ---------------------------------------------------------------------------

/// What is said while devices are woken.
pub fn waking_status(count: usize) -> (r: String)
    ensures
        r@ == "Waking and probing "@ + text::dec(count as nat) + " stale Apple/unknown device(s)..."@,
{
    let mut r = "Waking and probing ".to_owned();
    r.append(dec_text(count as u64).as_str());
    r.append(" stale Apple/unknown device(s)...");
    r
}

/// What is said while devices are asked what they are.
pub fn probing_status(count: usize) -> (r: String)
    ensures
        r@ == "Probing "@ + text::dec(count as nat) + " device(s) via mDNS..."@,
{
    let mut r = "Probing ".to_owned();
    r.append(dec_text(count as u64).as_str());
    r.append(" device(s) via mDNS...");
    r
}

/// What is said once the devices are found.
pub fn ready_status(count: usize) -> (r: String)
    ensures
        r@ == "Ready ("@ + text::dec(count as nat) + " discovered)"@,
{
    let mut r = "Ready (".to_owned();
    r.append(dec_text(count as u64).as_str());
    r.append(" discovered)");
    r
}

// ---------------------------------------------------------------------------
// What a scan learns
// ---------------------------------------------------------------------------

/// A neighbour that tells of a host is found under its address, with the
/// hardware address it has and the maker of that; its name is looked for where
/// it can be. A host that was not heard of lately, whose maker is not known or
/// is Apple, is asked once more.
pub proof fn law_neighbour_found(
    s: ScanView,
    n: Neighbour,
    interface: Option<u32>,
    list: Seq<(Seq<char>, Seq<char>)>,
    now: Moment,
)
    ensures
        !arp::tells_of_host(n, interface) ==> s.with_neighbour(n, interface, list, now) == s,
        arp::tells_of_host(n, interface) ==> {
            let t = s.with_neighbour(n, interface, list, now);
            let d = t.found[n.ip];
            let maker = vendor::vendor_of(list, arp::pairs_text(n.mac@));
            let asked = naming::resolvable(n.ip);
            let vague = maker == "Unknown"@ || maker == "Randomized MAC"@ || text::contains(
                text::lowered(maker),
                "apple"@,
            );
            &&& t.found.dom() == s.found.dom().insert(n.ip)
            &&& d.mac == arp::pairs_text(n.mac@)
            &&& d.vendor == maker
            &&& d.miss_count == 0
            &&& d.last_seen == now.steady
            &&& d.last_seen_unix == now.unix
            &&& asked ==> d.hostname == "Resolving..."@ && t.wanted == s.wanted.push(n.ip)
            &&& !asked ==> d.hostname == "\u{2014}"@ && t.wanted == s.wanted
            &&& n.state == 4 && n.ip is V4 && vague ==> t.stale == s.stale.push(n.ip)
            &&& n.state != 4 || n.ip is V6 || !vague ==> t.stale == s.stale
        },
{
}

/// A reply of an address of this network is found with its hardware address
/// and maker, and its name is asked for once.
pub proof fn law_reply_found(
    s: ScanView,
    n: u32,
    mac: Seq<char>,
    maker: Seq<char>,
    now: Moment,
)
    ensures
        ({
            let ip = IpAddr::V4(n);
            let t = s.with_reply(ip, mac, maker, now);
            let private = 0x0A00_0000 <= n <= 0x0AFF_FFFF || 0xAC10_0000 <= n <= 0xAC1F_FFFF
                || 0xC0A8_0000 <= n <= 0xC0A8_FFFF;
            let local = private || 0xA9FE_0000 <= n <= 0xA9FE_FFFF;
            let d = t.found[ip];
            &&& !local ==> t == s
            &&& local ==> {
                &&& t.found.dom() == s.found.dom().insert(ip)
                &&& d.mac == mac
                &&& d.vendor == maker
                &&& d.hostname == "Resolving..."@
                &&& d.miss_count == 0
                &&& d.last_seen == now.steady
                &&& t.stale == s.stale
            }
            &&& private && !s.wanted.contains(ip) ==> t.wanted == s.wanted.push(ip)
            &&& local && (!private || s.wanted.contains(ip)) ==> t.wanted == s.wanted
        }),
{
    net::law_local_ranges(n, 0);
    naming::law_names_asked_for(n, 0);
}

/// A name that was announced makes a device of an address of this network that
/// none is known of, without hardware address and maker; a device stays.
pub proof fn law_announced_device_found(s: ScanView, n: u32, name: Seq<char>, now: Moment)
    ensures
        ({
            let ip = IpAddr::V4(n);
            let t = s.with_name(ip, name, now);
            let private = 0x0A00_0000 <= n <= 0x0AFF_FFFF || 0xAC10_0000 <= n <= 0xAC1F_FFFF
                || 0xC0A8_0000 <= n <= 0xC0A8_FFFF;
            let local = private || 0xA9FE_0000 <= n <= 0xA9FE_FFFF;
            &&& !local ==> t == s
            &&& local && s.found.dom().contains(ip) ==> t.found == s.found
            &&& local && !s.found.dom().contains(ip) ==> {
                let d = t.found[ip];
                &&& t.found.dom() == s.found.dom().insert(ip)
                &&& d.mac == "Unknown"@
                &&& d.vendor == "Unknown"@
                &&& d.hostname == name
                &&& d.miss_count == 0
            }
            &&& private && !s.wanted.contains(ip) ==> t.wanted == s.wanted.push(ip)
        }),
{
    net::law_local_ranges(n, 0);
    naming::law_names_asked_for(n, 0);
}

/// What a probe tells of a device: a name, if there is one, and that it is made
/// by Apple where it tells a model and no maker is known.
pub proof fn law_probe_tells(s: ScanView, ip: IpAddr, name: Seq<char>, d: DetailsView)
    ensures
        !s.found.dom().contains(ip) ==> s.with_probe(ip, name, d) == s,
        s.found.dom().contains(ip) ==> {
            let old = s.found[ip];
            let new = s.with_probe(ip, name, d).found[ip];
            let told = d.property("model"@) is Some || d.property("model_code"@) is Some;
            let unknown = old.vendor == "Unknown"@ || old.vendor == "Randomized MAC"@;
            &&& name.len() > 0 ==> new.hostname == name
            &&& name.len() == 0 ==> new.hostname == old.hostname
            &&& told && unknown ==> new.vendor == "Apple Inc."@
            &&& !told || !unknown ==> new.vendor == old.vendor
            &&& new.mac == old.mac
            &&& new.miss_count == old.miss_count
            &&& new.last_seen == old.last_seen
        },
{
}

/// A device that was found again has the hardware address and maker it was
/// found with and the time of the scan; its name is the new one, unless that
/// stands for none. A device that was not found is only missed once more, and
/// one that was not known is as it was found.
pub proof fn law_devices_after_scan(
    known: Map<IpAddr, InfoView>,
    found: Map<IpAddr, InfoView>,
    now: Moment,
    ip: IpAddr,
)
    ensures
        devices_after(known, found, now).dom() == known.dom().union(found.dom()),
        known.dom().contains(ip) && found.dom().contains(ip) ==> {
            let d = devices_after(known, found, now)[ip];
            let none = found[ip].hostname == "Resolving..."@ || found[ip].hostname == "\u{2014}"@;
            &&& d.mac == found[ip].mac
            &&& d.vendor == found[ip].vendor
            &&& none ==> d.hostname == known[ip].hostname
            &&& !none ==> d.hostname == found[ip].hostname
            &&& d.last_seen == now.steady
            &&& d.last_seen_unix == now.unix
            &&& d.miss_count == 0
        },
        known.dom().contains(ip) && !found.dom().contains(ip) ==> {
            let d = devices_after(known, found, now)[ip];
            &&& d.mac == known[ip].mac
            &&& d.vendor == known[ip].vendor
            &&& d.hostname == known[ip].hostname
            &&& d.last_seen == known[ip].last_seen
            &&& d.last_seen_unix == known[ip].last_seen_unix
        },
        !known.dom().contains(ip) && found.dom().contains(ip) ==> devices_after(known, found, now)[ip]
            == found[ip],
{
    assert(devices_after(known, found, now).dom() =~= known.dom().union(found.dom()));
}

/// What is learnt of a device is added to what is known: a property that is
/// told anew counts, every other one stays, and services add up.
pub proof fn law_details_add_up(
    m: Map<IpAddr, DetailsView>,
    n: u32,
    d: DetailsView,
    key: Seq<char>,
    service: Seq<char>,
)
    ensures
        ({
            let ip = IpAddr::V4(n);
            let local = 0x0A00_0000 <= n <= 0x0AFF_FFFF || 0xAC10_0000 <= n <= 0xAC1F_FFFF
                || 0xC0A8_0000 <= n <= 0xC0A8_FFFF || 0xA9FE_0000 <= n <= 0xA9FE_FFFF;
            let after = learned_at(m, ip, d);
            &&& !local ==> after == m
            &&& local ==> {
                &&& after.dom().contains(ip)
                &&& d.property(key) is Some ==> after[ip].property(key) == d.property(key)
                &&& d.property(key) is None && m.dom().contains(ip) ==> after[ip].property(key)
                    == m[ip].property(key)
                &&& d.services.contains(service) ==> after[ip].services.contains(service)
                &&& m.dom().contains(ip) && m[ip].services.contains(service)
                    ==> after[ip].services.contains(service)
            }
        }),
{
    net::law_local_ranges(n, 0);
}

/// The baseline of a network holds the devices of it, but for addresses that
/// begin with fe80 of devices that have a short address as well.
pub proof fn law_baseline_holds(m: Map<IpAddr, InfoView>, n: u32, long: u128, other: u32)
    ensures
        ({
            let ip = IpAddr::V4(n);
            let local = 0x0A00_0000 <= n <= 0x0AFF_FFFF || 0xAC10_0000 <= n <= 0xAC1F_FFFF
                || 0xC0A8_0000 <= n <= 0xC0A8_FFFF || 0xA9FE_0000 <= n <= 0xA9FE_FFFF;
            &&& baseline(m).dom().contains(ip) <==> m.dom().contains(ip) && local
            &&& baseline(m).dom().contains(ip) ==> baseline(m)[ip] == m[ip]
            &&& 0xFE80_0000_0000_0000_0000_0000_0000_0000 <= long
                <= 0xFE80_FFFF_FFFF_FFFF_FFFF_FFFF_FFFF_FFFF && m.dom().contains(IpAddr::V4(other))
                && m.dom().contains(IpAddr::V6(long)) && m[IpAddr::V4(other)].mac
                == m[IpAddr::V6(long)].mac ==> !baseline(m).dom().contains(IpAddr::V6(long))
        }),
{
    net::law_local_ranges(n, long);
    naming::law_names_asked_for(n, long);
    if m.dom().contains(IpAddr::V4(other)) {
        assert(m[IpAddr::V4(other)].mac == m[IpAddr::V4(other)].mac);
    }
}

/// A new device is told with its address, its hardware address and its maker.
pub proof fn law_new_device_told(ip: IpAddr, d: InfoView)
    ensures
        new_device_text(ip, d) == "New device since the last baseline: "@ + net::ip_text(ip) + " ("@
            + d.mac + ", "@ + d.vendor + ")"@,
{
}

/// A device is probed at its short address while it told no model.
pub proof fn law_probe_targets(m: Map<IpAddr, DetailsView>, n: u32, long: u128)
    ensures
        ({
            let ip = IpAddr::V4(n);
            let modelled = m.dom().contains(ip) && m[ip].property("model"@) is Some;
            &&& !modelled ==> probe_target(m, ip) == Some(ip)
            &&& modelled ==> probe_target(m, ip) is None
            &&& probe_target(m, IpAddr::V6(long)) is None
        }),
{
}

} // verus!
