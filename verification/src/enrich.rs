//! What is learned of devices once a scan has found them: names from other
//! services, descriptions, categories, and devices that belong together.

use vstd::prelude::*;
use vstd::string::*;

use crate::announce;
use crate::banner;
use crate::banner::{find_server, needs_banner, note_description, note_page};
use crate::board::{DetailsBoard, DeviceBoard};
use crate::device::{DetailsView, DeviceDetails, InfoView};
use crate::hostname::DASH;
use crate::names;
use crate::naming;
use crate::naming::is_link_local;
use crate::net;
use crate::net::{IpAddr, ip_string, is_local_ip};
use crate::scan;
use crate::scan::{Moment, RESOLVING, is_no_maker, is_no_name, see_device};
use crate::table::{Dup, Table};
use crate::text;
use crate::text::{chars_of, same, split_chars, trim};

verus! {

/// A name that stands for none, or an empty one.
pub open spec fn unnamed(name: Seq<char>) -> bool {
    scan::no_name(name) || name.len() == 0
}

/// Whether a name stands for none or is empty.
pub fn is_unnamed(name: &str) -> (r: bool)
    ensures
        r == unnamed(name@),
{
    is_no_name(name) || name.unicode_len() == 0
}

/// A device with another name.
pub open spec fn renamed(info: InfoView, name: Seq<char>) -> InfoView {
    InfoView { hostname: name, ..info }
}

/// The devices with a name for the one at an address.
pub open spec fn with_hostname(
    m: Map<IpAddr, InfoView>,
    ip: IpAddr,
    name: Seq<char>,
) -> Map<IpAddr, InfoView> {
    m.insert(ip, renamed(m[ip], name))
}

fn set_hostname(board: &mut DeviceBoard, ip: &IpAddr, name: &str)
    requires
        old(board)@.dom().contains(*ip),
    ensures
        final(board)@ == with_hostname(old(board)@, *ip, name@),
{
    match board.get(ip) {
        Some(d) => {
            let mut d = d;
            d.hostname = name.to_owned();
            board.insert(*ip, d);
        },
        None => {},
    }
}

// ---------------------------------------------------------------------------
// Announced devices
// ---------------------------------------------------------------------------

/// The devices once hosts were named that no scan found.
pub open spec fn announced(
    m: Map<IpAddr, InfoView>,
    names: Map<IpAddr, Seq<char>>,
    now: Moment,
) -> Map<IpAddr, InfoView> {
    Map::new(
        |ip: IpAddr| m.dom().contains(ip) || net::local_ip(ip) && names.dom().contains(ip),
        |ip: IpAddr|
            if m.dom().contains(ip) {
                m[ip]
            } else {
                scan::device_seen("Unknown"@, "Unknown"@, names[ip], now)
            },
    )
}

/// Notes the hosts of this network that were named and that no scan found.
pub fn add_announced(board: &mut DeviceBoard, names: &Table<IpAddr, String>, now: Moment)
    ensures
        final(board)@ == announced(old(board)@, names@, now),
{
    let ghost start = board@;
    let ghost items = names.items();
    let n: usize = names.len();
    for i in 0..n
        invariant
            n == items.len(),
            items == names.items(),
            forall|j: int|
                0 <= j < n ==> names@.dom().contains((#[trigger] items[j]).0)
                    && names@[items[j].0] == items[j].1,
            forall|ip: IpAddr| #[trigger]
                board@.dom().contains(ip) <==> start.dom().contains(ip) || net::local_ip(ip)
                    && exists|j: int| 0 <= j < i && (#[trigger] items[j]).0 == ip,
            forall|ip: IpAddr| #[trigger]
                board@.dom().contains(ip) ==> board@[ip] == announced(start, names@, now)[ip],
    {
        let (ip, name) = names.entry(i);
        assert(items[i as int] == (ip@, name@));
        let ghost before = board@;
        if is_local_ip(ip) && board.get(ip).is_none() {
            board.insert(
                *ip,
                see_device("Unknown".to_owned(), "Unknown".to_owned(), name.dup(), now),
            );
        }
        assert forall|q: IpAddr| #[trigger]
            board@.dom().contains(q) <==> start.dom().contains(q) || net::local_ip(q) && exists|j: int|
                0 <= j < i + 1 && (#[trigger] items[j]).0 == q by {
            if q == *ip {
                assert(items[i as int].0 == q);
            } else {
                assert(board@.dom().contains(q) == before.dom().contains(q));
            }
        }
    }
    assert(board@ =~= announced(start, names@, now));
}

// ---------------------------------------------------------------------------
// Names
// ---------------------------------------------------------------------------

/// A hardware address by which a device is recognised.
pub open spec fn known_mac(mac: Seq<char>) -> bool {
    mac != "Unknown"@ && mac.len() > 0
}

fn is_known_mac(mac: &str) -> (r: bool)
    ensures
        r == known_mac(mac@),
{
    !same(mac, "Unknown") && mac.unicode_len() > 0
}

/// The host with a hardware address has a name at an IPv4 address.
pub open spec fn named_twin(m: Map<IpAddr, InfoView>, mac: Seq<char>, other: IpAddr) -> bool {
    m.dom().contains(other) && other is V4 && m[other].mac == mac && !unnamed(m[other].hostname)
}

/// The name that the host with an address has at an IPv4 address, recognised
/// by its hardware address. Where there are several, it is one of them.
pub fn name_by_mac(board: &DeviceBoard, ip: &IpAddr) -> (r: Option<String>)
    ensures
        match r {
            Some(name) => board@.dom().contains(*ip) && known_mac(board@[*ip].mac)
                && exists|other: IpAddr| #[trigger]
                named_twin(board@, board@[*ip].mac, other) && board@[other].hostname == name@,
            None => !(board@.dom().contains(*ip) && known_mac(board@[*ip].mac)) || forall|
                other: IpAddr,
            |
                !#[trigger] named_twin(board@, board@[*ip].mac, other),
        },
{
    let own = match board.get(ip) {
        Some(d) => d,
        None => {
            return None;
        },
    };
    if !is_known_mac(own.mac.as_str()) {
        return None;
    }
    let ips = board.ips();
    let n: usize = ips.len();
    for i in 0..n
        invariant
            n == ips@.len(),
            board@.dom().contains(*ip),
            own@ == board@[*ip],
            known_mac(own@.mac),
            forall|q: IpAddr| #[trigger] ips@.contains(q) <==> board@.dom().contains(q),
            forall|j: int| 0 <= j < i ==> !named_twin(board@, own@.mac, #[trigger] ips@[j]),
    {
        let other = ips[i];
        assert(ips@.contains(other));
        match other {
            IpAddr::V4(_) => match board.get(&other) {
                Some(d) => {
                    if same(d.mac.as_str(), own.mac.as_str()) && !is_unnamed(d.hostname.as_str()) {
                        assert(named_twin(board@, own@.mac, other));
                        return Some(d.hostname);
                    }
                },
                None => {},
            },
            IpAddr::V6(_) => {},
        }
    }
    assert forall|other: IpAddr| !#[trigger] named_twin(board@, own@.mac, other) by {
        if board@.dom().contains(other) {
            assert(ips@.contains(other));
            let j = choose|j: int| 0 <= j < ips@.len() && ips@[j] == other;
            assert(!named_twin(board@, own@.mac, ips@[j]));
        }
    }
    None
}

/// The name of an address as far as it was announced, or else printed by the
/// system's resolver.
pub fn listed_name(
    ip: &IpAddr,
    announced: &Table<IpAddr, String>,
    printed: &Table<IpAddr, String>,
) -> (r: Option<String>)
    ensures
        text::text_view(r) == (if announced@.dom().contains(*ip) {
            names::at(announced@, *ip)
        } else {
            names::at(printed@, *ip)
        }),
{
    match announced.get(ip) {
        Some(n) => Some(n.dup()),
        None => match printed.get(ip) {
            Some(n) => Some(n.dup()),
            None => None,
        },
    }
}

/// How the search for the name of an address goes.
pub enum NameSearch {
    /// The name is known.
    Found(String),
    /// The host is to be asked.
    AskHost,
    /// There is none.
    Missing,
}

/// Searches the name of an address: among those that were announced, and then
/// for an address of the own link by the hardware address, for any other among
/// those that the system's resolver printed. Only the host of such another
/// address can be asked.
pub fn search_name(
    board: &DeviceBoard,
    ip: &IpAddr,
    announced: &Table<IpAddr, String>,
    printed: &Table<IpAddr, String>,
) -> (r: NameSearch)
    ensures
        announced@.dom().contains(*ip) ==> (r matches NameSearch::Found(n) && n@
            == announced@[*ip]),
        !announced@.dom().contains(*ip) && !naming::link_local(*ip) ==> match r {
            NameSearch::Found(n) => printed@.dom().contains(*ip) && n@ == printed@[*ip],
            NameSearch::AskHost => !printed@.dom().contains(*ip),
            NameSearch::Missing => false,
        },
        !announced@.dom().contains(*ip) && naming::link_local(*ip) ==> match r {
            NameSearch::Found(n) => board@.dom().contains(*ip) && known_mac(board@[*ip].mac)
                && exists|other: IpAddr| #[trigger]
                named_twin(board@, board@[*ip].mac, other) && board@[other].hostname == n@,
            NameSearch::AskHost => false,
            NameSearch::Missing => !(board@.dom().contains(*ip) && known_mac(board@[*ip].mac))
                || forall|other: IpAddr| !#[trigger] named_twin(board@, board@[*ip].mac, other),
        },
{
    if is_link_local(ip) {
        match announced.get(ip) {
            Some(n) => NameSearch::Found(n.dup()),
            None => match name_by_mac(board, ip) {
                Some(n) => NameSearch::Found(n),
                None => NameSearch::Missing,
            },
        }
    } else {
        match listed_name(ip, announced, printed) {
            Some(n) => NameSearch::Found(n),
            None => NameSearch::AskHost,
        }
    }
}

/// A name that was found for an address: without white space around it, not
/// empty, and not the address itself.
pub open spec fn accepted(name: Option<Seq<char>>, ip: IpAddr) -> Option<Seq<char>> {
    match name {
        Some(n) if text::trimmed(n).len() > 0 && text::trimmed(n) != net::ip_text(ip) => Some(text::trimmed(n)),
        _ => None,
    }
}

/// A name that was found for an address, if it says anything.
pub fn accept_name(name: &Option<String>, ip: &IpAddr) -> (r: Option<String>)
    ensures
        text::text_view(r) == accepted(text::text_view(*name), *ip),
{
    match name {
        Some(n) => {
            let t = trim(n.as_str());
            let own = ip_string(ip);
            if t.as_str().unicode_len() > 0 && !same(t.as_str(), own.as_str()) {
                Some(t)
            } else {
                None
            }
        },
        None => None,
    }
}

/// A device once the search for its name is over.
pub open spec fn settled(info: InfoView, name: Option<Seq<char>>) -> InfoView {
    match name {
        Some(n) => if unnamed(info.hostname) {
            renamed(info, n)
        } else {
            info
        },
        None => if info.hostname == RESOLVING@ {
            renamed(info, DASH@)
        } else {
            info
        },
    }
}

/// A name found for a device is also that of the same host at an IPv6 address
/// of the own link.
pub open spec fn shares_name(m: Map<IpAddr, InfoView>, ip: IpAddr, other: IpAddr) -> bool {
    other != ip && naming::link_local(other) && known_mac(m[ip].mac) && m[other].mac == m[ip].mac
        && unnamed(m[other].hostname)
}

/// The devices once the search for the name of one is over.
pub open spec fn settled_all(
    m: Map<IpAddr, InfoView>,
    ip: IpAddr,
    name: Option<Seq<char>>,
) -> Map<IpAddr, InfoView> {
    if !m.dom().contains(ip) {
        m
    } else {
        Map::new(
            |q: IpAddr| m.dom().contains(q),
            |q: IpAddr|
                if q == ip {
                    settled(m[q], name)
                } else if name is Some && unnamed(m[ip].hostname) && !naming::link_local(ip)
                    && shares_name(m, ip, q) {
                    renamed(m[q], name->0)
                } else {
                    m[q]
                },
        )
    }
}

fn settle_own(board: &mut DeviceBoard, ip: &IpAddr, name: &Option<String>)
    ensures
        final(board)@ == (if old(board)@.dom().contains(*ip) {
            old(board)@.insert(*ip, settled(old(board)@[*ip], text::text_view(*name)))
        } else {
            old(board)@
        }),
{
    match board.get(ip) {
        None => {},
        Some(d) => {
            let mut d = d;
            match name {
                Some(n) => {
                    if is_unnamed(d.hostname.as_str()) {
                        d.hostname = n.dup();
                    }
                },
                None => {
                    if same(d.hostname.as_str(), RESOLVING) {
                        d.hostname = DASH.to_owned();
                    }
                },
            }
            board.insert(*ip, d);
        },
    }
}

fn share_name(board: &mut DeviceBoard, ip: &IpAddr, mac: &str, name: &str)
    requires
        !naming::link_local(*ip),
        known_mac(mac@),
    ensures
        final(board)@ == Map::new(
            |q: IpAddr| old(board)@.dom().contains(q),
            |q: IpAddr|
                if q != *ip && naming::link_local(q) && old(board)@[q].mac == mac@ && unnamed(
                    old(board)@[q].hostname,
                ) {
                    renamed(old(board)@[q], name@)
                } else {
                    old(board)@[q]
                },
        ),
{
    let ghost start = board@;
    let ghost want = Map::new(
        |q: IpAddr| start.dom().contains(q),
        |q: IpAddr|
            if q != *ip && naming::link_local(q) && start[q].mac == mac@ && unnamed(start[q].hostname) {
                renamed(start[q], name@)
            } else {
                start[q]
            },
    );
    let ips = board.ips();
    let n: usize = ips.len();
    for i in 0..n
        invariant
            n == ips@.len(),
            !naming::link_local(*ip),
            ips@.no_duplicates(),
            forall|q: IpAddr| #[trigger] ips@.contains(q) <==> start.dom().contains(q),
            want == Map::new(
                |q: IpAddr| start.dom().contains(q),
                |q: IpAddr|
                    if q != *ip && naming::link_local(q) && start[q].mac == mac@ && unnamed(
                        start[q].hostname,
                    ) {
                        renamed(start[q], name@)
                    } else {
                        start[q]
                    },
            ),
            board@.dom() == start.dom(),
            forall|j: int| 0 <= j < i ==> board@[#[trigger] ips@[j]] == want[ips@[j]],
            forall|j: int| i <= j < n ==> board@[#[trigger] ips@[j]] == start[ips@[j]],
    {
        let other = ips[i];
        assert(ips@.contains(other));
        match board.get(&other) {
            Some(d) => {
                if is_link_local(&other) && same(d.mac.as_str(), mac) && is_unnamed(
                    d.hostname.as_str(),
                ) {
                    set_hostname(board, &other, name);
                    assert(board@.dom() =~= start.dom());
                }
            },
            None => {},
        }
    }
    assert forall|q: IpAddr| start.dom().contains(q) implies board@[q] == want[q] by {
        assert(ips@.contains(q));
        let j = choose|j: int| 0 <= j < ips@.len() && ips@[j] == q;
        assert(ips@[j] == q);
    }
    assert(board@ =~= want);
}

/// Ends the search for the name of an address. A name that was found for an
/// address of IPv4 is also that of the same host at addresses of the own link.
pub fn settle_name(board: &mut DeviceBoard, ip: &IpAddr, name: &Option<String>)
    ensures
        final(board)@ == settled_all(old(board)@, *ip, text::text_view(*name)),
{
    let ghost start = board@;
    let before = board.get(ip);
    settle_own(board, ip, name);
    match (name, before) {
        (Some(n), Some(d)) => {
            if !is_link_local(ip) && is_unnamed(d.hostname.as_str()) && is_known_mac(
                d.mac.as_str(),
            ) {
                share_name(board, ip, d.mac.as_str(), n.as_str());
            }
        },
        _ => {},
    }
    assert(board@ =~= settled_all(start, *ip, text::text_view(*name)));
}

/// Once the search for a name is over, no device is shown as being looked for.
pub proof fn law_search_ends(m: Map<IpAddr, InfoView>, ip: IpAddr, name: Option<Seq<char>>)
    requires
        m.dom().contains(ip),
        accepted(name, ip) matches Some(n) ==> n != RESOLVING@,
    ensures
        settled_all(m, ip, accepted(name, ip))[ip].hostname != RESOLVING@,
{
    reveal_strlit("Resolving...");
    reveal_strlit("\u{2014}");
    assert(DASH@.len() != RESOLVING@.len());
}

// ---------------------------------------------------------------------------
// Descriptions
// ---------------------------------------------------------------------------

/// The services in a list with commas.
pub open spec fn listed_services(list: Seq<char>) -> Set<Seq<char>> {
    Set::new(
        |s: Seq<char>|
            s.len() > 0 && exists|i: int|
                0 <= i < text::split(list, ',').len() && text::trimmed(#[trigger] text::split(list, ',')[i]) == s,
    )
}

/// What is known of a device once a description gave properties; the services
/// stand in one of them.
pub open spec fn told_by(d: DetailsView, m: Map<Seq<char>, Seq<char>>) -> DetailsView {
    DetailsView {
        properties: d.properties.union_prefer_right(m.remove("services"@)),
        services: if m.dom().contains("services"@) {
            d.services.union(listed_services(m["services"@]))
        } else {
            d.services
        },
    }
}

fn add_services(d: &mut DeviceDetails, list: &str)
    ensures
        final(d)@ == (DetailsView {
            services: old(d)@.services.union(listed_services(list@)),
            ..old(d)@
        }),
{
    let ghost start = d@;
    let c = chars_of(list);
    let pieces = split_chars(c.as_slice(), ',');
    let ghost all = text::split(list@, ',');
    let n: usize = pieces.len();
    assert(text::texts(pieces@).len() == pieces@.len());
    for i in 0..n
        invariant
            n == pieces@.len(),
            all == text::texts(pieces@),
            d@.properties == start.properties,
            forall|s: Seq<char>| #[trigger]
                d@.services.contains(s) <==> start.services.contains(s) || s.len() > 0
                    && exists|j: int| 0 <= j < i && text::trimmed(#[trigger] all[j]) == s,
    {
        assert(all[i as int] == pieces@[i as int]@);
        let ghost before = d@.services;
        let t = trim(pieces[i].as_str());
        let ghost v = t@;
        if t.as_str().unicode_len() > 0 {
            d.offer(t.as_str());
        }
        assert forall|s: Seq<char>| #[trigger]
            d@.services.contains(s) <==> start.services.contains(s) || s.len() > 0
                && exists|j: int| 0 <= j < i + 1 && text::trimmed(#[trigger] all[j]) == s by {
            if s == v && v.len() > 0 {
                assert(text::trimmed(all[i as int]) == s);
            } else {
                assert(d@.services.contains(s) == before.contains(s));
            }
        }
    }
    assert(d@.services =~= start.services.union(listed_services(list@)));
}

fn tell_properties(d: &mut DeviceDetails, told: &Table<String, String>)
    ensures
        final(d)@ == told_by(old(d)@, told@),
{
    let ghost start = d@;
    let ghost items = told.items();
    let n: usize = told.len();
    let mut services: Option<String> = None;
    for i in 0..n
        invariant
            n == items.len(),
            items == told.items(),
            d@.services == start.services,
            forall|j: int|
                0 <= j < n ==> told@.dom().contains((#[trigger] items[j]).0) && told@[items[j].0]
                    == items[j].1,
            forall|j: int, k: int|
                0 <= j < k < n ==> (#[trigger] items[j]).0 != (#[trigger] items[k]).0,
            services matches Some(s) ==> told@.dom().contains("services"@) && told@["services"@]
                == s@,
            services is None ==> forall|j: int| 0 <= j < i ==> (#[trigger] items[j]).0 != "services"@,
            forall|k: Seq<char>| #[trigger]
                d@.properties.dom().contains(k) <==> start.properties.dom().contains(k) || k
                    != "services"@ && exists|j: int| 0 <= j < i && (#[trigger] items[j]).0 == k,
            forall|j: int|
                0 <= j < i && (#[trigger] items[j]).0 != "services"@ ==> d@.properties[items[j].0]
                    == items[j].1,
            forall|k: Seq<char>|
                start.properties.dom().contains(k) && (k == "services"@ || forall|j: int|
                    0 <= j < i ==> (#[trigger] items[j]).0 != k) ==> #[trigger] d@.properties[k]
                    == start.properties[k],
    {
        let (k, v) = told.entry(i);
        assert(items[i as int] == (k@, v@));
        let ghost before = d@.properties;
        if same(k.as_str(), "services") {
            services = Some(v.dup());
        } else {
            d.set(k.as_str(), v.as_str());
        }
        assert forall|q: Seq<char>| #[trigger]
            d@.properties.dom().contains(q) <==> start.properties.dom().contains(q) || q
                != "services"@ && exists|j: int| 0 <= j < i + 1 && (#[trigger] items[j]).0 == q by {
            if q == k@ {
                assert(items[i as int].0 == q);
            } else {
                assert(d@.properties.dom().contains(q) == before.dom().contains(q));
            }
        }
        assert forall|q: Seq<char>|
            start.properties.dom().contains(q) && (q == "services"@ || forall|j: int|
                0 <= j < i + 1 ==> (#[trigger] items[j]).0 != q) implies #[trigger] d@.properties[q]
            == start.properties[q] by {
            assert(q != "services"@ ==> items[i as int].0 != q);
            assert(before[q] == start.properties[q]);
        }
    }
    assert(d@.properties =~= start.properties.union_prefer_right(told@.remove("services"@)));
    match services {
        Some(s) => add_services(d, s.as_str()),
        None => {
            assert(!told@.dom().contains("services"@)) by {
                if told@.dom().contains("services"@) {
                    let j = choose|j: int|
                        0 <= j < items.len() && (#[trigger] items[j]).0 == "services"@;
                    assert(items[j].0 == "services"@);
                }
            }
        },
    }
}

/// The details of all devices once one was described.
pub open spec fn described_at(
    m: Map<IpAddr, DetailsView>,
    ip: IpAddr,
    told: Map<Seq<char>, Seq<char>>,
) -> Map<IpAddr, DetailsView> {
    if net::local_ip(ip) {
        m.insert(ip, told_by(announce::details_at(m, ip), told))
    } else {
        m
    }
}

/// Notes what a description tells of the device at an address.
pub fn take_description(board: &mut DetailsBoard, ip: &IpAddr, told: &Table<String, String>)
    ensures
        final(board)@ == described_at(old(board)@, *ip, told@),
{
    if is_local_ip(ip) {
        let mut d = board.details(ip);
        tell_properties(&mut d, told);
        board.insert(*ip, d);
    }
}

/// The devices once one told a host name: it counts where there is no name.
pub open spec fn hinted(
    m: Map<IpAddr, InfoView>,
    ip: IpAddr,
    name: Seq<char>,
) -> Map<IpAddr, InfoView> {
    if m.dom().contains(ip) && scan::no_name(m[ip].hostname) {
        with_hostname(m, ip, name)
    } else {
        m
    }
}

/// Takes a host name for the device at an address, where it has none.
pub fn hint_name(board: &mut DeviceBoard, ip: &IpAddr, name: &str)
    ensures
        final(board)@ == hinted(old(board)@, *ip, name@),
{
    match board.get(ip) {
        Some(d) => {
            if is_no_name(d.hostname.as_str()) {
                set_hostname(board, ip, name);
            }
        },
        None => {},
    }
}

/// The devices once one answered a request for devices, with the host name that
/// it told.
pub open spec fn host_told(
    m: Map<IpAddr, InfoView>,
    ip: IpAddr,
    told: Map<Seq<char>, Seq<char>>,
) -> Map<IpAddr, InfoView> {
    if net::local_ip(ip) && told.dom().contains("wsd_hostname"@) {
        hinted(m, ip, told["wsd_hostname"@])
    } else {
        m
    }
}

/// Takes the host name that a device of this network told in its answer to a
/// request for devices.
pub fn take_told_host(board: &mut DeviceBoard, ip: &IpAddr, told: &Table<String, String>)
    ensures
        final(board)@ == host_told(old(board)@, *ip, told@),
{
    if is_local_ip(ip) {
        match told.get(&"wsd_hostname".to_owned()) {
            Some(name) => hint_name(board, ip, name.as_str()),
            None => {},
        }
    }
}

/// Notes the order in which a device asks for addresses.
pub fn take_dhcp_fingerprint(board: &mut DetailsBoard, ip: IpAddr, fingerprint: &str)
    ensures
        final(board)@ == old(board)@.insert(
            ip,
            announce::details_at(old(board)@, ip).with("dhcp_fingerprint"@, fingerprint@),
        ),
{
    let mut d = board.details(&ip);
    d.set("dhcp_fingerprint", fingerprint);
    board.insert(ip, d);
}

/// A maker by which a device is not told apart: none, or Apple.
pub open spec fn vague_maker(vendor: Seq<char>) -> bool {
    scan::no_maker(vendor) || vendor == "Apple, Inc."@ || vendor == "Apple Inc."@ || vendor == "Apple"@
        || vendor == "Apple Device"@
}

/// A device that is asked for an address to see how it answers.
pub open spec fn unidentified(
    devices: Map<IpAddr, InfoView>,
    details: Map<IpAddr, DetailsView>,
    ip: IpAddr,
) -> bool {
    devices.dom().contains(ip) && ip is V4 && vague_maker(devices[ip].vendor) && !(
    details.dom().contains(ip) && details[ip].property("model"@) is Some)
}

fn is_unidentified(devices: &DeviceBoard, details: &DetailsBoard, ip: &IpAddr) -> (r: bool)
    ensures
        r == unidentified(devices@, details@, *ip),
{
    match ip {
        IpAddr::V6(_) => false,
        IpAddr::V4(_) => match devices.get(ip) {
            None => false,
            Some(d) => {
                let v = d.vendor.as_str();
                if !(is_no_maker(v) || same(v, "Apple, Inc.") || same(v, "Apple Inc.") || same(
                    v,
                    "Apple",
                ) || same(v, "Apple Device")) {
                    return false;
                }
                match details.get(ip) {
                    Some(m) => m.get("model").is_none(),
                    None => true,
                }
            },
        },
    }
}

/// The devices that are asked for an address, each once, in an order that is
/// left open.
pub fn unidentified_devices(devices: &DeviceBoard, details: &DetailsBoard) -> (r: Vec<IpAddr>)
    ensures
        r@.no_duplicates(),
        forall|ip: IpAddr| #[trigger]
            r@.contains(ip) <==> unidentified(devices@, details@, ip),
{
    let ips = devices.ips();
    let n: usize = ips.len();
    let mut r: Vec<IpAddr> = Vec::new();
    for i in 0..n
        invariant
            n == ips@.len(),
            ips@.no_duplicates(),
            forall|q: IpAddr| #[trigger] ips@.contains(q) <==> devices@.dom().contains(q),
            r@.no_duplicates(),
            forall|j: int|
                0 <= j < i && unidentified(devices@, details@, #[trigger] ips@[j])
                    ==> r@.contains(ips@[j]),
            forall|q: IpAddr| #[trigger]
                r@.contains(q) ==> unidentified(devices@, details@, q) && exists|j: int|
                    0 <= j < i && #[trigger] ips@[j] == q,
    {
        let ip = ips[i];
        assert(ips@[i as int] == ip);
        if is_unidentified(devices, details, &ip) {
            let ghost before = r@;
            assert(!before.contains(ip)) by {
                if before.contains(ip) {
                    let j = choose|j: int| 0 <= j < i && #[trigger] ips@[j] == ip;
                    assert(ips@[j] != ips@[i as int]);
                }
            }
            r.push(ip);
            assert(r@[before.len() as int] == ip);
            assert forall|q: IpAddr| before.contains(q) implies #[trigger] r@.contains(q) by {
                let j = choose|j: int| 0 <= j < before.len() && before[j] == q;
                assert(r@[j] == q);
            }
            assert forall|q: IpAddr| #[trigger] r@.contains(q) implies before.contains(q) || q == ip by {
                let j = choose|j: int| 0 <= j < r@.len() && r@[j] == q;
                if j < before.len() {
                    assert(before[j] == q);
                }
            }
        }
    }
    assert forall|ip: IpAddr| unidentified(devices@, details@, ip) implies #[trigger] r@.contains(
        ip,
    ) by {
        assert(ips@.contains(ip));
        let j = choose|j: int| 0 <= j < ips@.len() && ips@[j] == ip;
        assert(unidentified(devices@, details@, ips@[j]));
    }
    r
}

// ---------------------------------------------------------------------------
// Pages
// ---------------------------------------------------------------------------

/// Notes what the description of the device at an address tells.
pub fn take_device_description(board: &mut DetailsBoard, ip: IpAddr, xml: &str)
    ensures
        final(board)@ == old(board)@.insert(
            ip,
            banner::with_description(announce::details_at(old(board)@, ip), xml@),
        ),
{
    let mut d = board.details(&ip);
    note_description(&mut d, xml);
    board.insert(ip, d);
}

/// Notes what the first page of the device at an address tells. Its title is
/// the name of a device that has none.
pub fn take_page(
    devices: &mut DeviceBoard,
    details: &mut DetailsBoard,
    ip: IpAddr,
    headers: &str,
    body: &str,
)
    ensures
        final(details)@ == (if banner::page_tells(headers@, body@) {
            old(details)@.insert(ip, banner::with_page(announce::details_at(old(details)@, ip), headers@, body@))
        } else {
            old(details)@
        }),
        final(devices)@ == (match banner::html_title(body@) {
            Some(t) => hinted(old(devices)@, ip, t),
            None => old(devices)@,
        }),
{
    let mut d = details.details(&ip);
    let title = note_page(&mut d, headers, body);
    let server = find_server(headers);
    if title.is_some() || server.is_some() {
        details.insert(ip, d);
    }
    match title {
        Some(t) => hint_name(devices, &ip, t.as_str()),
        None => {},
    }
}

/// The addresses of this network that are asked for their pages, each once, in
/// an order that is left open.
pub fn banner_targets(devices: &DeviceBoard, details: &DetailsBoard) -> (r: Vec<IpAddr>)
    ensures
        r@.no_duplicates(),
        forall|ip: IpAddr| #[trigger]
            r@.contains(ip) <==> devices@.dom().contains(ip) && net::local_ip(ip) && banner::unasked(
                names::at(details@, ip),
            ),
{
    let ips = devices.ips();
    let n: usize = ips.len();
    let mut r: Vec<IpAddr> = Vec::new();
    for i in 0..n
        invariant
            n == ips@.len(),
            ips@.no_duplicates(),
            forall|q: IpAddr| #[trigger] ips@.contains(q) <==> devices@.dom().contains(q),
            r@.no_duplicates(),
            forall|j: int|
                0 <= j < i && net::local_ip(#[trigger] ips@[j]) && banner::unasked(names::at(details@, ips@[j]))
                    ==> r@.contains(ips@[j]),
            forall|q: IpAddr| #[trigger]
                r@.contains(q) ==> net::local_ip(q) && banner::unasked(names::at(details@, q)) && exists|j: int|
                    0 <= j < i && #[trigger] ips@[j] == q,
    {
        let ip = ips[i];
        assert(ips@[i as int] == ip);
        let ask = match details.get(&ip) {
            Some(d) => needs_banner(Some(&d)),
            None => true,
        };
        if is_local_ip(&ip) && ask {
            let ghost before = r@;
            assert(!before.contains(ip)) by {
                if before.contains(ip) {
                    let j = choose|j: int| 0 <= j < i && #[trigger] ips@[j] == ip;
                    assert(ips@[j] != ips@[i as int]);
                }
            }
            r.push(ip);
            assert(r@[before.len() as int] == ip);
            assert forall|q: IpAddr| before.contains(q) implies #[trigger] r@.contains(q) by {
                let j = choose|j: int| 0 <= j < before.len() && before[j] == q;
                assert(r@[j] == q);
            }
            assert forall|q: IpAddr| #[trigger] r@.contains(q) implies before.contains(q) || q == ip by {
                let j = choose|j: int| 0 <= j < r@.len() && r@[j] == q;
                if j < before.len() {
                    assert(before[j] == q);
                }
            }
        }
    }
    assert forall|ip: IpAddr|
        devices@.dom().contains(ip) && net::local_ip(ip) && banner::unasked(
            names::at(details@, ip),
        ) implies #[trigger] r@.contains(ip) by {
        assert(ips@.contains(ip));
        let j = choose|j: int| 0 <= j < ips@.len() && ips@[j] == ip;
        assert(net::local_ip(ips@[j]));
    }
    assert forall|ip: IpAddr| #[trigger] r@.contains(ip) implies devices@.dom().contains(ip) by {
        let j = choose|j: int| 0 <= j < n && #[trigger] ips@[j] == ip;
        assert(ips@.contains(ips@[j]));
    }
    r
}

// ---------------------------------------------------------------------------
// What is learnt of devices
// ---------------------------------------------------------------------------

/// A name that was found is taken by a device without one, and by the same
/// device under its longer address; a device that none was found for is shown
/// without one.
pub proof fn law_names_settled(
    m: Map<IpAddr, InfoView>,
    n: u32,
    name: Option<Seq<char>>,
    long: u128,
)
    requires
        m.dom().contains(IpAddr::V4(n)),
    ensures
        ({
            let ip = IpAddr::V4(n);
            let twin = IpAddr::V6(long);
            let old = m[ip];
            let after = settled_all(m, ip, name);
            let unnamed = old.hostname == "Resolving..."@ || old.hostname == "\u{2014}"@
                || old.hostname.len() == 0;
            let twin_unnamed = m[twin].hostname == "Resolving..."@ || m[twin].hostname == "\u{2014}"@
                || m[twin].hostname.len() == 0;
            let linked = 0xFE80_0000_0000_0000_0000_0000_0000_0000 <= long
                <= 0xFE80_FFFF_FFFF_FFFF_FFFF_FFFF_FFFF_FFFF;
            &&& after.dom() == m.dom()
            &&& name is Some && unnamed ==> after[ip].hostname == name->0
            &&& name is Some && !unnamed ==> after[ip] == old
            &&& name is None && old.hostname == "Resolving..."@ ==> after[ip].hostname == "\u{2014}"@
            &&& name is None && old.hostname != "Resolving..."@ ==> after[ip] == old
            &&& after[ip].mac == old.mac
            &&& after[ip].vendor == old.vendor
            &&& m.dom().contains(twin) && name is Some && unnamed && linked && twin_unnamed
                && m[twin].mac == old.mac && old.mac != "Unknown"@ && old.mac.len() > 0
                ==> after[twin].hostname == name->0
            &&& m.dom().contains(twin) && (!linked || !twin_unnamed || m[twin].mac != old.mac
                || old.mac == "Unknown"@ || name is None) ==> after[twin] == m[twin]
        }),
{
    naming::law_names_asked_for(n, long);
    assert(settled_all(m, IpAddr::V4(n), name).dom() =~= m.dom());
}

/// A name counts when there is something left of it without white space around
/// it and it is not the address itself.
pub proof fn law_names_accepted(left: Seq<char>, name: Seq<char>, right: Seq<char>, ip: IpAddr)
    requires
        forall|i: int| 0 <= i < left.len() ==> text::is_white(#[trigger] left[i]),
        forall|i: int| 0 <= i < right.len() ==> text::is_white(#[trigger] right[i]),
        name.len() > 0,
        !text::is_white(name[0]),
        !text::is_white(name.last()),
    ensures
        name != net::ip_text(ip) ==> accepted(Some(left + name + right), ip) == Some(name),
        name == net::ip_text(ip) ==> accepted(Some(left + name + right), ip) is None,
        accepted(None, ip) is None,
{
    text::law_trimmed(left, name, right);
}

/// A description adds its properties to those of the device, but for the list
/// of services, whose entries become services.
pub proof fn law_description_added(
    d: DetailsView,
    told: Map<Seq<char>, Seq<char>>,
    key: Seq<char>,
    one: Seq<char>,
    two: Seq<char>,
)
    requires
        one.len() > 0,
        two.len() > 0,
        forall|i: int| 0 <= i < one.len() ==> #[trigger] one[i] != ',' && !text::is_white(one[i]),
        forall|i: int| 0 <= i < two.len() ==> #[trigger] two[i] != ',' && !text::is_white(two[i]),
    ensures
        key != "services"@ && told.dom().contains(key) ==> told_by(d, told).property(key) == Some(
            told[key],
        ),
        !told.dom().contains(key) ==> told_by(d, told).property(key) == d.property(key),
        told_by(d, told).property("services"@) == d.property("services"@),
        !told.dom().contains("services"@) ==> told_by(d, told).services == d.services,
        told.dom().contains("services"@) && told["services"@] == one + seq![',', ' '] + two ==> {
            &&& told_by(d, told).services.contains(one)
            &&& told_by(d, told).services.contains(two)
        },
        d.services.contains(key) ==> told_by(d, told).services.contains(key),
{
    let list = one + seq![',', ' '] + two;
    let rest = seq![' '] + two;
    let none = Seq::<char>::empty();
    assert(list =~= one + seq![','] + rest);
    text::lemma_split_first(one, rest, ',');
    assert forall|i: int| 0 <= i < rest.len() implies rest[i] != ',' by {
        if i > 0 {
            assert(rest[i] == two[i - 1]);
        }
    }
    text::lemma_split_single(rest, ',');
    let p = text::split(list, ',');
    assert(p[0] == one);
    assert(p[1] == rest);
    assert(none + one + none =~= one);
    assert(seq![' '] + two + none =~= rest);
    assert(!text::is_white(one[0]) && !text::is_white(one[one.len() - 1]));
    assert(!text::is_white(two[0]) && !text::is_white(two[two.len() - 1]));
    text::law_trimmed(none, one, none);
    text::law_trimmed(seq![' '], two, none);
    assert(listed_services(list).contains(one));
    assert(listed_services(list).contains(two));
}

/// A host name that a device tells is taken where it has none.
pub proof fn law_told_host_taken(
    m: Map<IpAddr, InfoView>,
    n: u32,
    told: Map<Seq<char>, Seq<char>>,
    host: Seq<char>,
)
    requires
        told.dom().contains("wsd_hostname"@),
        told["wsd_hostname"@] == host,
    ensures
        ({
            let ip = IpAddr::V4(n);
            let local = 0x0A00_0000 <= n <= 0x0AFF_FFFF || 0xAC10_0000 <= n <= 0xAC1F_FFFF
                || 0xC0A8_0000 <= n <= 0xC0A8_FFFF || 0xA9FE_0000 <= n <= 0xA9FE_FFFF;
            let unnamed = m[ip].hostname == "Resolving..."@ || m[ip].hostname == "\u{2014}"@;
            &&& local && m.dom().contains(ip) && unnamed ==> host_told(m, ip, told)[ip].hostname == host
            &&& !local || !m.dom().contains(ip) || !unnamed ==> host_told(m, ip, told) == m
        }),
{
    net::law_local_ranges(n, 0);
}

/// A device is probed further while it has a short address, its maker is not
/// known or is Apple, and it told no model.
pub proof fn law_unidentified(
    devices: Map<IpAddr, InfoView>,
    details: Map<IpAddr, DetailsView>,
    ip: IpAddr,
)
    requires
        devices.dom().contains(ip),
    ensures
        ({
            let v = devices[ip].vendor;
            let vague = v == "Unknown"@ || v == "Randomized MAC"@ || v == "Apple, Inc."@ || v
                == "Apple Inc."@ || v == "Apple"@ || v == "Apple Device"@;
            let modelled = details.dom().contains(ip) && details[ip].property("model"@) is Some;
            unidentified(devices, details, ip) <==> ip is V4 && vague && !modelled
        }),
{
}

} // verus!
