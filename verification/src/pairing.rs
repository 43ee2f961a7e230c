//! Devices that belong together by their hardware addresses: several addresses
//! of one device, and devices of one production batch.

use vstd::prelude::*;
use vstd::string::*;

use crate::announce;
use crate::board::{DetailsBoard, DeviceBoard};
use crate::device::{DetailsView, InfoView};
use crate::enrich;
use crate::naming;
use crate::naming::is_link_local;
use crate::net;
use crate::net::{IpAddr, ip_string};
use crate::scan;
use crate::scan::is_no_name;
use crate::table::Dup;
use crate::text;
use crate::text::{
    chars_of, cut, dec_text, has_any, has_part, hex_char, hex_digit, join_texts, lower_case, same,
};
use crate::vendor;
use crate::vendor::{VendorList, strip_mac, try_get_vendor};

verus! {

/// A device with a known hardware address.
pub struct Listed {
    pub ip: IpAddr,
    pub mac: String,
    pub vendor: String,
    pub hostname: String,
}

/// A device with a known hardware address.
pub struct ListedView {
    pub ip: IpAddr,
    pub mac: Seq<char>,
    pub vendor: Seq<char>,
    pub hostname: Seq<char>,
}

impl View for Listed {
    type V = ListedView;

    open spec fn view(&self) -> ListedView {
        ListedView {
            ip: self.ip,
            mac: self.mac@,
            vendor: self.vendor@,
            hostname: self.hostname@,
        }
    }
}

/// The views of devices.
pub open spec fn listed_devices(v: Seq<Listed>) -> Seq<ListedView> {
    v.map_values(|d: Listed| d@)
}

/// The device at an address, as it is listed.
pub open spec fn listing(m: Map<IpAddr, InfoView>, ip: IpAddr) -> ListedView {
    ListedView { ip, mac: m[ip].mac, vendor: m[ip].vendor, hostname: m[ip].hostname }
}

/// The devices with known hardware addresses, each once, in an order that is
/// left open.
pub fn list_devices(board: &DeviceBoard) -> (r: Vec<Listed>)
    ensures
        forall|i: int|
            0 <= i < r@.len() ==> board@.dom().contains((#[trigger] r@[i]).ip) && enrich::known_mac(
                r@[i].mac@,
            ) && r@[i]@ == listing(board@, r@[i].ip),
        forall|i: int, j: int|
            0 <= i < j < r@.len() ==> (#[trigger] r@[i]).ip != (#[trigger] r@[j]).ip,
        forall|ip: IpAddr|
            board@.dom().contains(ip) && enrich::known_mac(#[trigger] board@[ip].mac) ==> exists|i: int|
                0 <= i < r@.len() && (#[trigger] r@[i]).ip == ip,
{
    let ips = board.ips();
    let n: usize = ips.len();
    let mut r: Vec<Listed> = Vec::new();
    for i in 0..n
        invariant
            n == ips@.len(),
            ips@.no_duplicates(),
            forall|q: IpAddr| #[trigger] ips@.contains(q) <==> board@.dom().contains(q),
            forall|j: int|
                0 <= j < r@.len() ==> board@.dom().contains((#[trigger] r@[j]).ip) && enrich::known_mac(
                    r@[j].mac@,
                ) && r@[j]@ == listing(board@, r@[j].ip) && exists|k: int|
                    0 <= k < i && #[trigger] ips@[k] == r@[j].ip,
            forall|j: int, k: int|
                0 <= j < k < r@.len() ==> (#[trigger] r@[j]).ip != (#[trigger] r@[k]).ip,
            forall|k: int|
                0 <= k < i && enrich::known_mac(board@[#[trigger] ips@[k]].mac) ==> exists|j: int|
                    0 <= j < r@.len() && (#[trigger] r@[j]).ip == ips@[k],
    {
        let ip = ips[i];
        assert(ips@[i as int] == ip);
        assert(ips@.contains(ip));
        let ghost before = r@;
        match board.get(&ip) {
            Some(d) => {
                if !same(d.mac.as_str(), "Unknown") && d.mac.as_str().unicode_len() > 0 {
                    r.push(Listed { ip, mac: d.mac, vendor: d.vendor, hostname: d.hostname });
                    assert(r@[before.len() as int].ip == ip);
                    assert forall|j: int| 0 <= j < before.len() implies (#[trigger] before[j]).ip
                        != ip by {
                        let k = choose|k: int| 0 <= k < i && #[trigger] ips@[k] == before[j].ip;
                        assert(ips@[k] != ips@[i as int]);
                    }
                    assert forall|k: int| 0 <= k < i && enrich::known_mac(
                        board@[#[trigger] ips@[k]].mac,
                    ) implies exists|j: int| 0 <= j < r@.len() && (#[trigger] r@[j]).ip == ips@[k] by {
                        let j = choose|j: int|
                            0 <= j < before.len() && (#[trigger] before[j]).ip == ips@[k];
                        assert(r@[j].ip == ips@[k]);
                    }
                }
            },
            None => {},
        }
    }
    assert forall|ip: IpAddr|
        board@.dom().contains(ip) && enrich::known_mac(#[trigger] board@[ip].mac) implies exists|i: int|
        0 <= i < r@.len() && (#[trigger] r@[i]).ip == ip by {
        assert(ips@.contains(ip));
        let k = choose|k: int| 0 <= k < ips@.len() && ips@[k] == ip;
        assert(enrich::known_mac(board@[ips@[k]].mac));
    }
    r
}

// ---------------------------------------------------------------------------
// One hardware address, several addresses
// ---------------------------------------------------------------------------

/// The addresses of the devices with a hardware address, in their order.
pub open spec fn holders(list: Seq<ListedView>, mac: Seq<char>) -> Seq<IpAddr> {
    list.filter_map(
        |d: ListedView|
            if d.mac == mac {
                Some(d.ip)
            } else {
                None
            },
    )
}

/// Two addresses of one device: one of IPv4, and one of the own link.
pub open spec fn two_families(ips: Seq<IpAddr>) -> bool {
    ips.len() == 2 && (naming::link_local(ips[0]) && ips[1] is V4 || naming::link_local(ips[1]) && ips[0] is V4)
}

/// Makers of loudspeakers that share a hardware address.
pub const SPEAKER_MAKERS: [&'static str; 6] = [
    "sonos",
    "bose",
    "denon",
    "yamaha",
    "bang & olufsen",
    "bang and olufsen",
];

/// Addresses in square brackets.
pub open spec fn bracketed(ips: Seq<IpAddr>) -> Seq<char> {
    "["@ + text::join(ips.map_values(|ip: IpAddr| net::ip_text(ip)), ", "@) + "]"@
}

/// What is told of a hardware address that several addresses share.
pub open spec fn sharing_alert(mac: Seq<char>, ips: Seq<IpAddr>, vendor: Seq<char>) -> Seq<char> {
    if text::contains_any(text::lowered(vendor), SPEAKER_MAKERS@) {
        "Sonos group MAC shared across "@ + text::dec(ips.len()) + " speakers \u{2014} expected behavior. (MAC: "@
            + mac + ", IPs: "@ + bracketed(ips) + ")"@
    } else {
        "Duplicate MAC address detected! MAC: "@ + mac + " shared by "@ + text::dec(ips.len())
            + " IPs: "@ + bracketed(ips)
    }
}

/// Something is told of a hardware address: more than one address has it, and
/// they are not merely the two of one device.
pub open spec fn is_shared(list: Seq<ListedView>, mac: Seq<char>) -> bool {
    holders(list, mac).len() > 1 && !two_families(holders(list, mac))
}

/// The hardware addresses of the first `n` devices, each once, by their first
/// occurrence.
pub open spec fn macs_of(list: Seq<ListedView>, n: int) -> Seq<Seq<char>>
    decreases n,
{
    if n <= 0 || n > list.len() {
        Seq::empty()
    } else if macs_of(list, n - 1).contains(list[n - 1].mac) {
        macs_of(list, n - 1)
    } else {
        macs_of(list, n - 1).push(list[n - 1].mac)
    }
}

/// What is told of a hardware address.
pub open spec fn alert_of(
    list: Seq<ListedView>,
    vendors: Seq<(Seq<char>, Seq<char>)>,
    mac: Seq<char>,
) -> Option<Seq<char>> {
    if is_shared(list, mac) {
        Some(sharing_alert(mac, holders(list, mac), vendor::vendor_of(vendors, mac)))
    } else {
        None
    }
}

/// The maker can be told for each hardware address that is shared.
pub open spec fn makers_readable(list: Seq<ListedView>) -> bool {
    forall|i: int|
        0 <= i < list.len() && is_shared(list, (#[trigger] list[i]).mac) ==> vendor::mac_readable(
            list[i].mac,
        )
}

fn find_holders(list: &Vec<Listed>, mac: &str) -> (r: Vec<IpAddr>)
    ensures
        r@ == holders(listed_devices(list@), mac@),
{
    let ghost views = listed_devices(list@);
    let ghost f = |d: ListedView|
        if d.mac == mac@ {
            Some(d.ip)
        } else {
            None
        };
    let mut r: Vec<IpAddr> = Vec::new();
    let n: usize = list.len();
    assert(r@ =~= views.take(0).filter_map(f));
    for i in 0..n
        invariant
            n == list@.len(),
            views == listed_devices(list@),
            f == (|d: ListedView|
                if d.mac == mac@ {
                    Some(d.ip)
                } else {
                    None
                }),
            r@ == views.take(i as int).filter_map(f),
    {
        proof {
            views.lemma_filter_map_take_succ(f, i as int);
            assert(views[i as int] == list@[i as int]@);
        }
        let ghost before = r@;
        assert(before + Seq::<IpAddr>::empty() =~= before);
        if same(list[i].mac.as_str(), mac) {
            r.push(list[i].ip);
            assert(r@ =~= before + seq![list@[i as int].ip]);
        }
    }
    assert(views.take(n as int) =~= views);
    r
}

fn is_two_families(ips: &Vec<IpAddr>) -> (r: bool)
    ensures
        r == two_families(ips@),
{
    if ips.len() != 2 {
        return false;
    }
    let a4 = match ips[0] {
        IpAddr::V4(_) => true,
        IpAddr::V6(_) => false,
    };
    let b4 = match ips[1] {
        IpAddr::V4(_) => true,
        IpAddr::V6(_) => false,
    };
    is_link_local(&ips[0]) && b4 || is_link_local(&ips[1]) && a4
}

/// Addresses in square brackets.
pub fn bracket(ips: &Vec<IpAddr>) -> (r: String)
    ensures
        r@ == bracketed(ips@),
{
    let mut t: Vec<String> = Vec::new();
    let n: usize = ips.len();
    for i in 0..n
        invariant
            n == ips@.len(),
            t@.len() == i,
            forall|j: int| 0 <= j < i ==> (#[trigger] t@[j])@ == net::ip_text(ips@[j]),
    {
        t.push(ip_string(&ips[i]));
    }
    assert(text::texts(t@) =~= ips@.map_values(|ip: IpAddr| net::ip_text(ip)));
    let inner = join_texts(&t, ", ");
    let mut r = "[".to_owned();
    r.append(inner.as_str());
    r.append("]");
    r
}

fn tell_sharing(mac: &str, ips: &Vec<IpAddr>, vendor: &str) -> (r: String)
    ensures
        r@ == sharing_alert(mac@, ips@, vendor@),
{
    let lower = lower_case(vendor);
    let list = bracket(ips);
    let n: usize = ips.len();
    if has_any(lower.as_str(), &SPEAKER_MAKERS) {
        let mut r = "Sonos group MAC shared across ".to_owned();
        r.append(dec_text(n as u64).as_str());
        r.append(" speakers \u{2014} expected behavior. (MAC: ");
        r.append(mac);
        r.append(", IPs: ");
        r.append(list.as_str());
        r.append(")");
        r
    } else {
        let mut r = "Duplicate MAC address detected! MAC: ".to_owned();
        r.append(mac);
        r.append(" shared by ");
        r.append(dec_text(n as u64).as_str());
        r.append(" IPs: ");
        r.append(list.as_str());
        r
    }
}

fn is_text_listed(list: &Vec<String>, s: &str) -> (r: bool)
    ensures
        r == text::texts(list@).contains(s@),
{
    let n: usize = list.len();
    for i in 0..n
        invariant
            n == list@.len(),
            forall|j: int| 0 <= j < i ==> (#[trigger] text::texts(list@)[j]) != s@,
    {
        if same(list[i].as_str(), s) {
            assert(text::texts(list@)[i as int] == s@);
            return true;
        }
    }
    false
}

fn list_macs(list: &Vec<Listed>) -> (r: Vec<String>)
    ensures
        text::texts(r@) == macs_of(listed_devices(list@), list@.len() as int),
{
    let ghost views = listed_devices(list@);
    let mut r: Vec<String> = Vec::new();
    let n: usize = list.len();
    assert(text::texts(r@) =~= macs_of(views, 0));
    for i in 0..n
        invariant
            n == list@.len(),
            views == listed_devices(list@),
            text::texts(r@) == macs_of(views, i as int),
    {
        assert(views[i as int] == list@[i as int]@);
        let ghost before = text::texts(r@);
        if !is_text_listed(&r, list[i].mac.as_str()) {
            r.push(list[i].mac.dup());
            assert(text::texts(r@) =~= before.push(list@[i as int].mac@));
        }
    }
    r
}

proof fn lemma_macs_of(list: Seq<ListedView>, n: int, mac: Seq<char>)
    requires
        0 <= n <= list.len(),
        macs_of(list, n).contains(mac),
    ensures
        exists|i: int| 0 <= i < list.len() && (#[trigger] list[i]).mac == mac,
    decreases n,
{
    if n > 0 {
        let before = macs_of(list, n - 1);
        if before.contains(mac) {
            lemma_macs_of(list, n - 1, mac);
        } else {
            let k = choose|k: int| 0 <= k < macs_of(list, n).len() && macs_of(list, n)[k] == mac;
            assert(k == before.len()) by {
                if k < before.len() {
                    assert(before[k] == mac);
                }
            }
            assert(list[n - 1].mac == mac);
        }
    }
}

proof fn lemma_macs_listed(list: Seq<ListedView>, n: int, i: int)
    requires
        0 <= i < n <= list.len(),
    ensures
        macs_of(list, n).contains(list[i].mac),
    decreases n,
{
    let before = macs_of(list, n - 1);
    let now = macs_of(list, n);
    if i < n - 1 {
        lemma_macs_listed(list, n - 1, i);
        let k = choose|k: int| 0 <= k < before.len() && before[k] == list[i].mac;
        assert(now[k] == list[i].mac);
    } else if !before.contains(list[i].mac) {
        assert(now[before.len() as int] == list[i].mac);
    }
}

/// What is told of hardware addresses that several addresses share. Nothing
/// comes back where the maker cannot be told for one of them.
pub fn duplicate_alerts(list: &Vec<Listed>, vendors: &VendorList) -> (r: Option<Vec<String>>)
    ensures
        match r {
            Some(v) => makers_readable(listed_devices(list@)) && text::texts(v@) == macs_of(
                listed_devices(list@),
                list@.len() as int,
            ).filter_map(
                |mac: Seq<char>| alert_of(listed_devices(list@), vendors@, mac),
            ),
            None => !makers_readable(listed_devices(list@)),
        },
{
    let ghost views = listed_devices(list@);
    let macs = list_macs(list);
    let ghost all = text::texts(macs@);
    let ghost f = |mac: Seq<char>| alert_of(views, vendors@, mac);
    let mut r: Vec<String> = Vec::new();
    let n: usize = macs.len();
    assert(text::texts(r@) =~= all.take(0).filter_map(f));
    for i in 0..n
        invariant
            n == macs@.len(),
            views == listed_devices(list@),
            all == text::texts(macs@),
            all == macs_of(views, list@.len() as int),
            f == (|mac: Seq<char>| alert_of(views, vendors@, mac)),
            text::texts(r@) == all.take(i as int).filter_map(f),
            forall|k: int|
                0 <= k < i && is_shared(views, #[trigger] all[k]) ==> vendor::mac_readable(all[k]),
    {
        proof {
            all.lemma_filter_map_take_succ(f, i as int);
            assert(all[i as int] == macs@[i as int]@);
        }
        let ghost before = text::texts(r@);
        assert(before + Seq::<Seq<char>>::empty() =~= before);
        let mac = macs[i].as_str();
        let ips = find_holders(list, mac);
        if ips.len() > 1 && !is_two_families(&ips) {
            match try_get_vendor(vendors, mac) {
                Some(vendor) => {
                    let alert = tell_sharing(mac, &ips, vendor.as_str());
                    let ghost v = alert@;
                    r.push(alert);
                    assert(text::texts(r@) =~= before + seq![v]);
                },
                None => {
                    proof {
                        assert(all.contains(mac@));
                        lemma_macs_of(views, views.len() as int, mac@);
                        let k = choose|k: int|
                            0 <= k < views.len() && (#[trigger] views[k]).mac == mac@;
                        assert(is_shared(views, views[k].mac));
                    }
                    return None;
                },
            }
        }
    }
    assert(all.take(n as int) =~= all);
    assert forall|i: int| 0 <= i < views.len() && is_shared(
        views,
        (#[trigger] views[i]).mac,
    ) implies vendor::mac_readable(views[i].mac) by {
        lemma_macs_listed(views, views.len() as int, i);
        let k = choose|k: int| 0 <= k < all.len() && all[k] == views[i].mac;
        assert(is_shared(views, all[k]));
    }
    Some(r)
}

// ---------------------------------------------------------------------------
// One production batch
// ---------------------------------------------------------------------------

/// The number that hexadecimal digits form.
pub open spec fn hex_number(s: Seq<char>) -> nat
    decreases s.len(),
{
    if s.len() == 0 {
        0
    } else {
        hex_number(s.drop_last()) * 16 + text::hex_value(s.last())
    }
}

/// Hexadecimal digits only, at least one.
pub open spec fn all_hex(s: Seq<char>) -> bool {
    s.len() > 0 && forall|i: int| 0 <= i < s.len() ==> text::is_hex(#[trigger] s[i])
}

/// The number that a text is in hexadecimal, with an optional plus sign.
pub open spec fn hex_read(s: Seq<char>) -> Option<nat> {
    let digits = if s.len() > 0 && s[0] == '+' {
        s.skip(1)
    } else {
        s
    };
    if all_hex(digits) {
        Some(hex_number(digits))
    } else {
        None
    }
}

/// A hardware address of twelve digits can be parted into maker and number.
pub open spec fn parts_readable(list: Seq<ListedView>) -> bool {
    forall|i: int|
        0 <= i < list.len() && text::byte_len(vendor::bare_mac((#[trigger] list[i]).mac)) == 12 ==> text::cut_ok(
            vendor::bare_mac(list[i].mac),
            6,
        )
}

/// Two hardware addresses of one maker are close to each other.
pub open spec fn same_batch(a: Seq<char>, b: Seq<char>) -> bool {
    let (x, y) = (vendor::bare_mac(a), vendor::bare_mac(b));
    text::byte_len(x) == 12 && text::byte_len(y) == 12 && text::first_bytes(x, 6) == text::first_bytes(y, 6) && (match (
        hex_read(x),
        hex_read(y),
    ) {
        (Some(m), Some(n)) => m <= n + 512 && n <= m + 512,
        _ => false,
    })
}

/// The name of a device in a note.
pub open spec fn note_name(host: Seq<char>) -> Seq<char> {
    if scan::no_name(host) {
        "ESP32"@
    } else {
        host
    }
}

/// The note on two devices of one batch.
pub open spec fn pair_note(a: ListedView, b: ListedView) -> Seq<char> {
    if text::contains(text::lowered(a.vendor), "espressif"@) || text::contains(text::lowered(b.vendor), "espressif"@) {
        "Device Pair \u{2014} likely same hardware batch (ESP32 pair: "@ + note_name(a.hostname)
            + " & "@ + note_name(b.hostname) + ")"@
    } else {
        "Device Pair \u{2014} likely same hardware batch"@
    }
}

/// The details of all devices with a note on one.
pub open spec fn noted(
    m: Map<IpAddr, DetailsView>,
    ip: IpAddr,
    note: Seq<char>,
) -> Map<IpAddr, DetailsView> {
    m.insert(ip, announce::details_at(m, ip).with("note"@, note))
}

/// The details of all devices once two were compared.
pub open spec fn compared(
    m: Map<IpAddr, DetailsView>,
    a: ListedView,
    b: ListedView,
) -> Map<IpAddr, DetailsView> {
    if same_batch(a.mac, b.mac) {
        noted(noted(m, a.ip, pair_note(a, b)), b.ip, pair_note(a, b))
    } else {
        m
    }
}

/// The details once device `i` was compared with those from `i + 1` up to `j`.
pub open spec fn compared_row(
    m: Map<IpAddr, DetailsView>,
    list: Seq<ListedView>,
    i: int,
    j: int,
) -> Map<IpAddr, DetailsView>
    decreases j,
{
    if j <= i + 1 || j <= 0 {
        m
    } else {
        compared(compared_row(m, list, i, j - 1), list[i], list[j - 1])
    }
}

/// The details once the first `n` devices were compared with all behind them.
pub open spec fn compared_all(
    m: Map<IpAddr, DetailsView>,
    list: Seq<ListedView>,
    n: int,
) -> Map<IpAddr, DetailsView>
    decreases n,
{
    if n <= 0 {
        m
    } else {
        compared_row(compared_all(m, list, n - 1), list, n - 1, list.len() as int)
    }
}

fn read_hex(s: &str) -> (r: Option<u64>)
    requires
        s@.len() <= 12,
    ensures
        match r {
            Some(n) => hex_read(s@) == Some(n as nat) && n < 0x1_0000_0000_0000,
            None => hex_read(s@) is None,
        },
{
    let c = chars_of(s);
    let n: usize = c.len();
    let from: usize = if n > 0 && c[0] == '+' {
        1
    } else {
        0
    };
    let ghost digits = if s@.len() > 0 && s@[0] == '+' {
        s@.skip(1)
    } else {
        s@
    };
    assert(digits =~= s@.skip(from as int));
    if from == n {
        return None;
    }
    let mut v: u64 = 0;
    let mut bound: u64 = 1;
    for i in from..n
        invariant
            n == c@.len(),
            c@ == s@,
            n <= 12,
            from <= n,
            from <= 1,
            digits == s@.skip(from as int),
            digits == (if s@.len() > 0 && s@[0] == '+' {
                s@.skip(1)
            } else {
                s@
            }),
            forall|j: int| 0 <= j < i - from ==> text::is_hex(#[trigger] digits[j]),
            v == hex_number(digits.take(i - from)),
            v < bound,
            bound == power16(i - from),
    {
        proof {
            lemma_power16(i - from);
            lemma_power16(i - from + 1);
            assert(digits[i - from] == s@[i as int]);
            assert(digits.take(i - from + 1).drop_last() =~= digits.take(i - from));
            assert(digits.take(i - from + 1).last() == digits[i - from]);
        }
        if !hex_char(c[i]) {
            assert(!text::is_hex(digits[i - from]));
            return None;
        }
        v = v * 16 + hex_digit(c[i]) as u64;
        bound = bound * 16;
    }
    proof {
        lemma_power16(n - from);
        assert(digits.take(n - from) =~= digits);
    }
    Some(v)
}

spec fn power16(n: int) -> int
    decreases n,
{
    if n <= 0 {
        1
    } else {
        power16(n - 1) * 16
    }
}

proof fn lemma_power16(n: int)
    requires
        0 <= n <= 12,
    ensures
        0 < power16(n) <= 0x1_0000_0000_0000,
{
    reveal_with_fuel(power16, 13);
}

fn is_same_batch(a: &str, b: &str) -> (r: bool)
    requires
        text::byte_len(vendor::bare_mac(a@)) == 12 ==> text::cut_ok(vendor::bare_mac(a@), 6),
        text::byte_len(vendor::bare_mac(b@)) == 12 ==> text::cut_ok(vendor::bare_mac(b@), 6),
    ensures
        r == same_batch(a@, b@),
{
    let x = strip_mac(a);
    let y = strip_mac(b);
    if x.as_str().as_bytes().len() != 12 || y.as_str().as_bytes().len() != 12 {
        return false;
    }
    let p = cut(x.as_str(), 6);
    let q = cut(y.as_str(), 6);
    if !same(p.as_str(), q.as_str()) {
        return false;
    }
    proof {
        text::lemma_byte_len(x@);
        text::lemma_byte_len(y@);
    }
    match (read_hex(x.as_str()), read_hex(y.as_str())) {
        (Some(m), Some(n)) => m <= n + 512 && n <= m + 512,
        _ => false,
    }
}

fn write_pair_note(a: &Listed, b: &Listed) -> (r: String)
    ensures
        r@ == pair_note(a@, b@),
{
    let la = lower_case(a.vendor.as_str());
    let lb = lower_case(b.vendor.as_str());
    if has_part(la.as_str(), "espressif") || has_part(lb.as_str(), "espressif") {
        let mut r = "Device Pair \u{2014} likely same hardware batch (ESP32 pair: ".to_owned();
        if is_no_name(a.hostname.as_str()) {
            r.append("ESP32");
        } else {
            r.append(a.hostname.as_str());
        }
        r.append(" & ");
        if is_no_name(b.hostname.as_str()) {
            r.append("ESP32");
        } else {
            r.append(b.hostname.as_str());
        }
        r.append(")");
        r
    } else {
        "Device Pair \u{2014} likely same hardware batch".to_owned()
    }
}

fn note_on(board: &mut DetailsBoard, ip: IpAddr, note: &str)
    ensures
        final(board)@ == noted(old(board)@, ip, note@),
{
    let mut d = board.details(&ip);
    d.set("note", note);
    board.insert(ip, d);
}

/// Notes on devices that others of the same batch stand next to: every two are
/// compared, and the last comparison that succeeds counts.
pub fn note_pairs(board: &mut DetailsBoard, list: &Vec<Listed>)
    requires
        parts_readable(listed_devices(list@)),
    ensures
        final(board)@ == compared_all(
            old(board)@,
            listed_devices(list@),
            list@.len() as int,
        ),
{
    let ghost start = board@;
    let ghost views = listed_devices(list@);
    let n: usize = list.len();
    for i in 0..n
        invariant
            n == list@.len(),
            views == listed_devices(list@),
            parts_readable(views),
            board@ == compared_all(start, views, i as int),
    {
        let ghost row = board@;
        for j in (i + 1)..n
            invariant
                i < n,
                n == list@.len(),
                views == listed_devices(list@),
                parts_readable(views),
                board@ == compared_row(row, views, i as int, j as int),
        {
            assert(views[i as int] == list@[i as int]@);
            assert(views[j as int] == list@[j as int]@);
            if is_same_batch(list[i].mac.as_str(), list[j].mac.as_str()) {
                let note = write_pair_note(&list[i], &list[j]);
                note_on(board, list[i].ip, note.as_str());
                note_on(board, list[j].ip, note.as_str());
            }
        }
    }
}

/// Notes on devices that others of the same batch stand next to. Nothing is
/// noted where a hardware address cannot be parted.
pub fn try_note_pairs(board: &mut DetailsBoard, list: &Vec<Listed>) -> (r: bool)
    ensures
        r == parts_readable(listed_devices(list@)),
        final(board)@ == (if r {
            compared_all(old(board)@, listed_devices(list@), list@.len() as int)
        } else {
            old(board)@
        }),
{
    let ghost views = listed_devices(list@);
    let n: usize = list.len();
    for i in 0..n
        invariant
            n == list@.len(),
            views == listed_devices(list@),
            *board == *old(board),
            forall|k: int|
                0 <= k < i && text::byte_len(vendor::bare_mac((#[trigger] views[k]).mac)) == 12 ==> text::cut_ok(
                    vendor::bare_mac(views[k].mac),
                    6,
                ),
    {
        assert(views[i as int] == list@[i as int]@);
        let bare = strip_mac(list[i].mac.as_str());
        if bare.as_str().as_bytes().len() == 12 && !bare.as_str().is_char_boundary(6) {
            return false;
        }
    }
    note_pairs(board, list);
    true
}

/// Whether two hardware addresses are of one batch does not depend on which is
/// looked at first.
pub proof fn law_batch_symmetric(a: Seq<char>, b: Seq<char>)
    ensures
        same_batch(a, b) == same_batch(b, a),
{
}

/// Devices share a hardware address when more than one has it, other than one
/// device under a short address and one that begins with fe80; the alert names
/// the address and all that have it.
pub proof fn law_shared_addresses_told(
    list: Seq<ListedView>,
    vendors: Seq<(Seq<char>, Seq<char>)>,
    mac: Seq<char>,
)
    ensures
        ({
            let ips = holders(list, mac);
            let maker = text::lowered(vendor::vendor_of(vendors, mac));
            let speakers = text::contains(maker, "sonos"@) || text::contains(maker, "bose"@)
                || text::contains(maker, "denon"@) || text::contains(maker, "yamaha"@)
                || text::contains(maker, "bang & olufsen"@) || text::contains(
                maker,
                "bang and olufsen"@,
            );
            &&& ips.len() <= 1 ==> alert_of(list, vendors, mac) is None
            &&& ips.len() >= 3 && speakers ==> alert_of(list, vendors, mac) == Some(
                "Sonos group MAC shared across "@ + text::dec(ips.len())
                    + " speakers \u{2014} expected behavior. (MAC: "@ + mac + ", IPs: "@ + bracketed(
                    ips,
                ) + ")"@,
            )
            &&& ips.len() >= 3 && !speakers ==> alert_of(list, vendors, mac) == Some(
                "Duplicate MAC address detected! MAC: "@ + mac + " shared by "@ + text::dec(ips.len())
                    + " IPs: "@ + bracketed(ips),
            )
            &&& ips.len() == 2 && ips[0] is V4 && ips[1] is V4 ==> alert_of(list, vendors, mac) is Some
        }),
{
    lemma_speaker_makers(text::lowered(vendor::vendor_of(vendors, mac)));
}

proof fn lemma_speaker_makers(maker: Seq<char>)
    ensures
        text::contains_any(maker, SPEAKER_MAKERS@) == (text::contains(maker, "sonos"@)
            || text::contains(maker, "bose"@) || text::contains(maker, "denon"@) || text::contains(
            maker,
            "yamaha"@,
        ) || text::contains(maker, "bang & olufsen"@) || text::contains(maker, "bang and olufsen"@)),
{
    let t = SPEAKER_MAKERS@;
    assert(t.len() == 6 && t[0]@ == "sonos"@ && t[1]@ == "bose"@ && t[2]@ == "denon"@ && t[3]@
        == "yamaha"@ && t[4]@ == "bang & olufsen"@ && t[5]@ == "bang and olufsen"@);
    if text::contains_any(maker, t) {
        let i = choose|i: int| 0 <= i < t.len() && text::contains(maker, #[trigger] t[i]@);
        assert(i == 0 || i == 1 || i == 2 || i == 3 || i == 4 || i == 5);
    }
}

/// Who has a hardware address: every device that lists it, in the order of the
/// list, and no other.
pub proof fn law_holders(list: Seq<ListedView>, d: ListedView, mac: Seq<char>)
    ensures
        d.mac == mac ==> holders(list.push(d), mac) == holders(list, mac).push(d.ip),
        d.mac != mac ==> holders(list.push(d), mac) == holders(list, mac),
        holders(Seq::empty(), mac).len() == 0,
{
    let f = |d: ListedView|
        if d.mac == mac {
            Some(d.ip)
        } else {
            None
        };
    let more = list.push(d);
    assert(more.drop_last() =~= list);
    assert(more.last() == d);
    reveal_with_fuel(Seq::filter_map, 1);
    if d.mac == mac {
        assert(more.filter_map(f) =~= list.filter_map(f).push(d.ip));
    }
    assert(Seq::<ListedView>::empty().filter_map(f).len() == 0);
}

/// Two devices are of one batch when their hardware addresses have the first
/// six digits in common and are at most 512 apart; both are noted as a pair.
pub proof fn law_batches_noted(
    m: Map<IpAddr, DetailsView>,
    a: ListedView,
    b: ListedView,
    head: Seq<char>,
    x: Seq<char>,
    y: Seq<char>,
)
    requires
        vendor::bare_mac(a.mac) == head + x,
        vendor::bare_mac(b.mac) == head + y,
        head.len() == 6 && x.len() == 6 && y.len() == 6,
        text::all_ascii(head + x),
        text::all_ascii(head + y),
        all_hex(head + x),
        all_hex(head + y),
    ensures
        ({
            let p = hex_number(head + x);
            let q = hex_number(head + y);
            let near = p <= q + 512 && q <= p + 512;
            let after = compared(m, a, b);
            &&& near ==> after.dom().contains(a.ip) && after.dom().contains(b.ip)
                && after[a.ip].property("note"@) == Some(pair_note(a, b))
                && after[b.ip].property("note"@) == Some(pair_note(a, b))
            &&& !near ==> after == m
        }),
{
    text::lemma_ascii_cut(head + x, 6);
    text::lemma_ascii_cut(head + y, 6);
    assert((head + x).take(6) =~= head);
    assert((head + y).take(6) =~= head);
    assert(text::is_hex((head + x)[0]));
    assert(text::is_hex((head + y)[0]));
}

/// A pair reads by its names where one of the two is made by Espressif.
pub proof fn law_pairs_read(a: ListedView, b: ListedView)
    requires
        a.hostname != "Resolving..."@ && a.hostname != "\u{2014}"@,
        b.hostname == "Resolving..."@ || b.hostname == "\u{2014}"@,
    ensures
        ({
            let esp = text::contains(text::lowered(a.vendor), "espressif"@) || text::contains(
                text::lowered(b.vendor),
                "espressif"@,
            );
            &&& esp ==> pair_note(a, b)
                == "Device Pair \u{2014} likely same hardware batch (ESP32 pair: "@ + a.hostname
                + " & "@ + "ESP32"@ + ")"@
            &&& !esp ==> pair_note(a, b) == "Device Pair \u{2014} likely same hardware batch"@
        }),
{
}

} // verus!
