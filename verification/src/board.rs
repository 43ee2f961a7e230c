//! The devices that scans have found, and what is known of them, in maps that
//! many threads can read and fill.

use dashmap::DashMap;
use vstd::prelude::*;

use crate::announce;
use crate::device::{DetailsView, DeviceDetails, DeviceInfo, InfoView};
use crate::net::IpAddr;
use crate::table::{Dup, Table};

verus! {

/// A number for an address: whether it is an IPv6 address, and its value.
pub open spec fn board_key(ip: IpAddr) -> (bool, u128) {
    match ip {
        IpAddr::V4(n) => (false, n as u128),
        IpAddr::V6(n) => (true, n),
    }
}

/// The address of a number.
pub open spec fn key_ip(k: (bool, u128)) -> IpAddr {
    if k.0 {
        IpAddr::V6(k.1)
    } else {
        IpAddr::V4(k.1 as u32)
    }
}

/// A number that an address can have.
pub open spec fn is_board_key(k: (bool, u128)) -> bool {
    k.0 || k.1 <= u32::MAX
}

fn key_of(ip: &IpAddr) -> (r: (bool, u128))
    ensures
        r == board_key(*ip),
        is_board_key(r),
        key_ip(r) == *ip,
{
    match ip {
        IpAddr::V4(n) => (false, *n as u128),
        IpAddr::V6(n) => (true, *n),
    }
}

fn ip_of(k: (bool, u128)) -> (r: IpAddr)
    ensures
        r == key_ip(k),
        is_board_key(k) ==> board_key(r) == k,
{
    if k.0 {
        IpAddr::V6(k.1)
    } else {
        IpAddr::V4(#[verifier::truncate]
        (k.1 as u32))
    }
}

/// What a map from addresses to devices holds.
pub uninterp spec fn device_entries(m: DashMap<(bool, u128), DeviceInfo>) -> Map<
    (bool, u128),
    InfoView,
>;

/// What a map from addresses to details holds.
pub uninterp spec fn detail_entries(m: DashMap<(bool, u128), DeviceDetails>) -> Map<
    (bool, u128),
    DetailsView,
>;

/// `DashMap::new`: a map that holds nothing.
#[verifier::external_body]
fn devices_new() -> (r: DashMap<(bool, u128), DeviceInfo>)
    ensures
        (device_entries(r) == Map::<(bool, u128), InfoView>::empty()),
{
    DashMap::new()
}

/// `DashMap::insert`: puts a value at a key, in place of the one that was there.
#[verifier::external_body]
fn devices_insert(m: &mut DashMap<(bool, u128), DeviceInfo>, k: (bool, u128), v: DeviceInfo)
    ensures
        device_entries(*final(m)) == device_entries(*old(m)).insert(k, v@),
{
    m.insert(k, v);
}

/// `DashMap::get`: a copy of the value at a key.
#[verifier::external_body]
fn devices_get(m: &DashMap<(bool, u128), DeviceInfo>, k: (bool, u128)) -> (r: Option<DeviceInfo>)
    ensures
        match r {
            Some(v) => device_entries(*m).dom().contains(k) && v@ == device_entries(*m)[k],
            None => !device_entries(*m).dom().contains(k),
        },
{
    m.get(&k).map(|v| v.value().dup())
}

/// `DashMap::iter`: the keys, each once, in an order that is left open.
#[verifier::external_body]
fn devices_keys(m: &DashMap<(bool, u128), DeviceInfo>) -> (r: Vec<(bool, u128)>)
    ensures
        r@.no_duplicates(),
        r@.to_set() == device_entries(*m).dom(),
{
    m.iter().map(|e| *e.key()).collect()
}

/// `DashMap::new`: a map that holds nothing.
#[verifier::external_body]
fn details_new() -> (r: DashMap<(bool, u128), DeviceDetails>)
    ensures
        (detail_entries(r) == Map::<(bool, u128), DetailsView>::empty()),
{
    DashMap::new()
}

/// `DashMap::insert`: puts a value at a key, in place of the one that was there.
#[verifier::external_body]
fn details_insert(
    m: &mut DashMap<(bool, u128), DeviceDetails>,
    k: (bool, u128),
    v: DeviceDetails,
)
    ensures
        detail_entries(*final(m)) == detail_entries(*old(m)).insert(k, v@),
{
    m.insert(k, v);
}

/// `DashMap::get`: a copy of the value at a key.
#[verifier::external_body]
fn details_get(m: &DashMap<(bool, u128), DeviceDetails>, k: (bool, u128)) -> (r: Option<
    DeviceDetails,
>)
    ensures
        match r {
            Some(v) => detail_entries(*m).dom().contains(k) && v@ == detail_entries(*m)[k],
            None => !detail_entries(*m).dom().contains(k),
        },
{
    m.get(&k).map(|v| v.value().dup())
}

/// `DashMap::iter`: the keys, each once, in an order that is left open.
#[verifier::external_body]
fn details_keys(m: &DashMap<(bool, u128), DeviceDetails>) -> (r: Vec<(bool, u128)>)
    ensures
        r@.no_duplicates(),
        r@.to_set() == detail_entries(*m).dom(),
{
    m.iter().map(|e| *e.key()).collect()
}

/// What a map by number is by address.
pub open spec fn by_address<V>(m: Map<(bool, u128), V>) -> Map<IpAddr, V> {
    Map::new(|ip: IpAddr| m.dom().contains(board_key(ip)), |ip: IpAddr| m[board_key(ip)])
}

proof fn lemma_insert_by_address<V>(m: Map<(bool, u128), V>, ip: IpAddr, v: V)
    ensures
        by_address(m.insert(board_key(ip), v)) == by_address(m).insert(ip, v),
{
    let a = by_address(m.insert(board_key(ip), v));
    let b = by_address(m).insert(ip, v);
    assert forall|q: IpAddr| a.dom().contains(q) == b.dom().contains(q) by {
        if board_key(q) == board_key(ip) {
            assert(key_ip(board_key(q)) == q);
            assert(key_ip(board_key(ip)) == ip);
        }
    }
    assert forall|q: IpAddr| a.dom().contains(q) implies a[q] == b[q] by {
        if board_key(q) == board_key(ip) {
            assert(key_ip(board_key(q)) == q);
            assert(key_ip(board_key(ip)) == ip);
        }
    }
    assert(a =~= b);
}

fn addresses_of(keys: &Vec<(bool, u128)>) -> (r: Vec<IpAddr>)
    requires
        keys@.no_duplicates(),
        forall|i: int| 0 <= i < keys@.len() ==> is_board_key(#[trigger] keys@[i]),
    ensures
        r@.no_duplicates(),
        forall|ip: IpAddr| #[trigger] r@.contains(ip) <==> keys@.contains(board_key(ip)),
{
    let mut r: Vec<IpAddr> = Vec::new();
    let n: usize = keys.len();
    for i in 0..n
        invariant
            n == keys@.len(),
            r@.len() == i,
            forall|j: int| 0 <= j < n ==> is_board_key(#[trigger] keys@[j]),
            forall|j: int| 0 <= j < i ==> board_key(#[trigger] r@[j]) == keys@[j],
    {
        r.push(ip_of(keys[i]));
    }
    assert forall|ip: IpAddr| #[trigger] r@.contains(ip) <==> keys@.contains(board_key(ip)) by {
        if r@.contains(ip) {
            let j = choose|j: int| 0 <= j < r@.len() && r@[j] == ip;
            assert(keys@[j] == board_key(ip));
        }
        if keys@.contains(board_key(ip)) {
            let j = choose|j: int| 0 <= j < keys@.len() && keys@[j] == board_key(ip);
            assert(board_key(r@[j]) == board_key(ip));
            assert(key_ip(board_key(r@[j])) == r@[j]);
            assert(key_ip(board_key(ip)) == ip);
            assert(r@[j] == ip);
        }
    }
    assert(r@.no_duplicates()) by {
        assert forall|i: int, j: int| 0 <= i < r@.len() && 0 <= j < r@.len() && i
            != j implies r@[i] != r@[j] by {
            assert(keys@[i] != keys@[j]);
        }
    }
    r
}

/// The devices that scans have found, by address.
pub struct DeviceBoard {
    map: DashMap<(bool, u128), DeviceInfo>,
}

impl View for DeviceBoard {
    type V = Map<IpAddr, InfoView>;

    closed spec fn view(&self) -> Map<IpAddr, InfoView> {
        by_address(device_entries(self.map))
    }
}

impl DeviceBoard {
    #[verifier::type_invariant]
    spec fn wf(self) -> bool {
        forall|k: (bool, u128)|
            #[trigger] device_entries(self.map).dom().contains(k) ==> is_board_key(k)
    }

    /// No devices.
    pub fn new() -> (r: DeviceBoard)
        ensures
            (r@ == Map::<IpAddr, InfoView>::empty()),
    {
        let r = DeviceBoard { map: devices_new() };
        assert(r@ =~= Map::<IpAddr, InfoView>::empty());
        r
    }

    /// The device at an address.
    pub fn get(&self, ip: &IpAddr) -> (r: Option<DeviceInfo>)
        ensures
            match r {
                Some(v) => self@.dom().contains(*ip) && v@ == self@[*ip],
                None => !self@.dom().contains(*ip),
            },
    {
        devices_get(&self.map, key_of(ip))
    }

    /// Notes the device at an address.
    pub fn insert(&mut self, ip: IpAddr, v: DeviceInfo)
        ensures
            final(self)@ == old(self)@.insert(ip, v@),
    {
        proof {
            use_type_invariant(&*self);
            lemma_insert_by_address(device_entries(self.map), ip, v@);
        }
        let mut map = devices_new();
        std::mem::swap(&mut map, &mut self.map);
        devices_insert(&mut map, key_of(&ip), v);
        self.map = map;
    }

    /// The addresses, each once, in an order that is left open.
    pub fn ips(&self) -> (r: Vec<IpAddr>)
        ensures
            r@.no_duplicates(),
            forall|ip: IpAddr| #[trigger] r@.contains(ip) <==> self@.dom().contains(ip),
            r@.to_set() == self@.dom(),
    {
        proof {
            use_type_invariant(self);
        }
        let keys = devices_keys(&self.map);
        assert forall|i: int| 0 <= i < keys@.len() implies is_board_key(#[trigger] keys@[i]) by {
            assert(keys@.to_set().contains(keys@[i]));
        }
        let r = addresses_of(&keys);
        assert forall|ip: IpAddr| #[trigger] r@.contains(ip) <==> self@.dom().contains(ip) by {
            assert(keys@.to_set().contains(board_key(ip)) == keys@.contains(board_key(ip)));
        }
        assert(r@.to_set() =~= self@.dom());
        r
    }
}

/// What is known of devices, by address.
pub struct DetailsBoard {
    map: DashMap<(bool, u128), DeviceDetails>,
}

impl View for DetailsBoard {
    type V = Map<IpAddr, DetailsView>;

    closed spec fn view(&self) -> Map<IpAddr, DetailsView> {
        by_address(detail_entries(self.map))
    }
}

impl DetailsBoard {
    #[verifier::type_invariant]
    spec fn wf(self) -> bool {
        forall|k: (bool, u128)|
            #[trigger] detail_entries(self.map).dom().contains(k) ==> is_board_key(k)
    }

    /// Nothing is known.
    pub fn new() -> (r: DetailsBoard)
        ensures
            (r@ == Map::<IpAddr, DetailsView>::empty()),
    {
        let r = DetailsBoard { map: details_new() };
        assert(r@ =~= Map::<IpAddr, DetailsView>::empty());
        r
    }

    /// What is known of the device at an address.
    pub fn get(&self, ip: &IpAddr) -> (r: Option<DeviceDetails>)
        ensures
            match r {
                Some(v) => self@.dom().contains(*ip) && v@ == self@[*ip],
                None => !self@.dom().contains(*ip),
            },
    {
        details_get(&self.map, key_of(ip))
    }

    /// Notes what is known of the device at an address.
    pub fn insert(&mut self, ip: IpAddr, v: DeviceDetails)
        ensures
            final(self)@ == old(self)@.insert(ip, v@),
    {
        proof {
            use_type_invariant(&*self);
            lemma_insert_by_address(detail_entries(self.map), ip, v@);
        }
        let mut map = details_new();
        std::mem::swap(&mut map, &mut self.map);
        details_insert(&mut map, key_of(&ip), v);
        self.map = map;
    }

    /// What is known of the device at an address, to be changed.
    pub fn details(&self, ip: &IpAddr) -> (r: DeviceDetails)
        ensures
            r@ == announce::details_at(self@, *ip),
    {
        match self.get(ip) {
            Some(d) => d,
            None => DeviceDetails::default(),
        }
    }

    /// The addresses, each once, in an order that is left open.
    pub fn ips(&self) -> (r: Vec<IpAddr>)
        ensures
            r@.no_duplicates(),
            forall|ip: IpAddr| #[trigger] r@.contains(ip) <==> self@.dom().contains(ip),
            r@.to_set() == self@.dom(),
    {
        proof {
            use_type_invariant(self);
        }
        let keys = details_keys(&self.map);
        assert forall|i: int| 0 <= i < keys@.len() implies is_board_key(#[trigger] keys@[i]) by {
            assert(keys@.to_set().contains(keys@[i]));
        }
        let r = addresses_of(&keys);
        assert forall|ip: IpAddr| #[trigger] r@.contains(ip) <==> self@.dom().contains(ip) by {
            assert(keys@.to_set().contains(board_key(ip)) == keys@.contains(board_key(ip)));
        }
        assert(r@.to_set() =~= self@.dom());
        r
    }
}

/// The devices in a table.
pub fn copy_devices(board: &DeviceBoard) -> (r: Table<IpAddr, DeviceInfo>)
    ensures
        r@ == board@,
{
    let mut r: Table<IpAddr, DeviceInfo> = Table::new();
    let ips = board.ips();
    let n: usize = ips.len();
    for i in 0..n
        invariant
            n == ips@.len(),
            forall|q: IpAddr| #[trigger] ips@.contains(q) <==> board@.dom().contains(q),
            forall|q: IpAddr| #[trigger]
                r@.dom().contains(q) <==> exists|j: int| 0 <= j < i && #[trigger] ips@[j] == q,
            forall|q: IpAddr| #[trigger] r@.dom().contains(q) ==> r@[q] == board@[q],
    {
        let ip = ips[i];
        let ghost before = r@;
        assert(ips@.contains(ip));
        match board.get(&ip) {
            Some(d) => r.insert(ip, d),
            None => {},
        }
        assert forall|q: IpAddr| #[trigger]
            r@.dom().contains(q) <==> exists|j: int| 0 <= j < i + 1 && #[trigger] ips@[j] == q by {
            if q == ip {
                assert(ips@[i as int] == q);
            } else {
                assert(r@.dom().contains(q) == before.dom().contains(q));
            }
        }
    }
    assert forall|q: IpAddr| r@.dom().contains(q) == board@.dom().contains(q) by {
        if board@.dom().contains(q) {
            assert(ips@.contains(q));
            let j = choose|j: int| 0 <= j < ips@.len() && ips@[j] == q;
            assert(ips@[j] == q);
        }
        if r@.dom().contains(q) {
            let j = choose|j: int| 0 <= j < n && #[trigger] ips@[j] == q;
            assert(ips@.contains(ips@[j]));
        }
    }
    assert(r@ =~= board@);
    r
}

/// The details in a table.
pub fn copy_details(board: &DetailsBoard) -> (r: Table<IpAddr, DeviceDetails>)
    ensures
        r@ == board@,
{
    let mut r: Table<IpAddr, DeviceDetails> = Table::new();
    let ips = board.ips();
    let n: usize = ips.len();
    for i in 0..n
        invariant
            n == ips@.len(),
            forall|q: IpAddr| #[trigger] ips@.contains(q) <==> board@.dom().contains(q),
            forall|q: IpAddr| #[trigger]
                r@.dom().contains(q) <==> exists|j: int| 0 <= j < i && #[trigger] ips@[j] == q,
            forall|q: IpAddr| #[trigger] r@.dom().contains(q) ==> r@[q] == board@[q],
    {
        let ip = ips[i];
        let ghost before = r@;
        assert(ips@.contains(ip));
        match board.get(&ip) {
            Some(d) => r.insert(ip, d),
            None => {},
        }
        assert forall|q: IpAddr| #[trigger]
            r@.dom().contains(q) <==> exists|j: int| 0 <= j < i + 1 && #[trigger] ips@[j] == q by {
            if q == ip {
                assert(ips@[i as int] == q);
            } else {
                assert(r@.dom().contains(q) == before.dom().contains(q));
            }
        }
    }
    assert forall|q: IpAddr| r@.dom().contains(q) == board@.dom().contains(q) by {
        if board@.dom().contains(q) {
            assert(ips@.contains(q));
            let j = choose|j: int| 0 <= j < ips@.len() && ips@[j] == q;
            assert(ips@[j] == q);
        }
        if r@.dom().contains(q) {
            let j = choose|j: int| 0 <= j < n && #[trigger] ips@[j] == q;
            assert(ips@.contains(ips@[j]));
        }
    }
    assert(r@ =~= board@);
    r
}

/// The devices of a table on a board.
pub fn board_devices(t: &Table<IpAddr, DeviceInfo>) -> (r: DeviceBoard)
    ensures
        r@ == t@,
{
    let mut r = DeviceBoard::new();
    let n: usize = t.len();
    let ghost items = t.items();
    for i in 0..n
        invariant
            n == items.len(),
            items == t.items(),
            forall|j: int|
                0 <= j < n ==> t@.dom().contains((#[trigger] items[j]).0) && t@[items[j].0]
                    == items[j].1,
            forall|q: IpAddr| #[trigger]
                r@.dom().contains(q) <==> exists|j: int| 0 <= j < i && (#[trigger] items[j]).0 == q,
            forall|q: IpAddr| #[trigger] r@.dom().contains(q) ==> r@[q] == t@[q],
    {
        let (ip, d) = t.entry(i);
        assert(items[i as int] == (ip@, d@));
        let ghost before = r@;
        r.insert(*ip, d.dup());
        assert forall|q: IpAddr| #[trigger]
            r@.dom().contains(q) <==> exists|j: int| 0 <= j < i + 1 && (#[trigger] items[j]).0 == q by {
            if q == *ip {
                assert(items[i as int].0 == q);
            } else {
                assert(r@.dom().contains(q) == before.dom().contains(q));
            }
        }
    }
    assert(r@ =~= t@);
    r
}

/// The details of a table on a board.
pub fn board_details(t: &Table<IpAddr, DeviceDetails>) -> (r: DetailsBoard)
    ensures
        r@ == t@,
{
    let mut r = DetailsBoard::new();
    let n: usize = t.len();
    let ghost items = t.items();
    for i in 0..n
        invariant
            n == items.len(),
            items == t.items(),
            forall|j: int|
                0 <= j < n ==> t@.dom().contains((#[trigger] items[j]).0) && t@[items[j].0]
                    == items[j].1,
            forall|q: IpAddr| #[trigger]
                r@.dom().contains(q) <==> exists|j: int| 0 <= j < i && (#[trigger] items[j]).0 == q,
            forall|q: IpAddr| #[trigger] r@.dom().contains(q) ==> r@[q] == t@[q],
    {
        let (ip, d) = t.entry(i);
        assert(items[i as int] == (ip@, d@));
        let ghost before = r@;
        r.insert(*ip, d.dup());
        assert forall|q: IpAddr| #[trigger]
            r@.dom().contains(q) <==> exists|j: int| 0 <= j < i + 1 && (#[trigger] items[j]).0 == q by {
            if q == *ip {
                assert(items[i as int].0 == q);
            } else {
                assert(r@.dom().contains(q) == before.dom().contains(q));
            }
        }
    }
    assert(r@ =~= t@);
    r
}

} // verus!
